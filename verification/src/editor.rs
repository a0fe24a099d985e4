//! The editor: its modes, and what each command does to the buffer, the
//! history, the clipboard, the command line, the message and the window.
//!
//! The editor decides; it reads and writes no files itself. A command that
//! needs a file read or written returns an `Effect` naming it, and whoever
//! performs it reports the outcome back through `finish_open` or
//! `finish_save`.

use vstd::prelude::*;
use vstd::utf8::*;

use crate::buffer::Buffer;
use crate::clipboard::Clipboard;
use crate::config::Config;
use crate::input::{key_command, Command, Direction, InputHandler, KeyEvent};
use crate::rope::{
    byte_offset, char_index, deleted, inserted, law_next_boundary_one_char, law_prev_boundary_one_char,
    lemma_byte_offset, lemma_char_index, lemma_settled, next_boundary, prev_boundary, settled, Rope,
};
use crate::style::{default_theme, Theme};
use crate::text::{
    chars_of, decimal, decimal_string, lines, newline_count, push_char, same_chars, split_words,
    string_from_chars, string_of, utf8_len, words,
};
use crate::undo::{push_step, redo_step, undo_step, Edit, EditKind, History, UndoStack};
use crate::viewport::Viewport;

verus! {

broadcast use vstd::utf8::group_utf8_lib;

/// The editor's modes.
#[derive(Clone, Copy, Debug, PartialEq, Eq, Structural)]
pub enum EditorMode {
    Normal,
    Insert,
    Visual,
    Command,
}

/// Work outside the editor that a command asks for.
pub enum Effect {
    /// Nothing to do.
    Nothing,
    /// Write `contents` to the file at `path`, then report to `finish_save`.
    WriteFile { path: String, contents: String },
    /// Read the file at `path`, then report to `finish_open`.
    ReadFile { path: String },
}

/// The editor's state.
pub struct Editor {
    buffer: Buffer,
    viewport: Viewport,
    input_handler: InputHandler,
    mode: EditorMode,
    clipboard: Clipboard,
    undo_stack: UndoStack,
    config: Config,
    running: bool,
    // The text typed after ":" (in the style of vim), such as "w notes.txt".
    command_buffer: Vec<char>,
    // The last message for the status bar (saved, error, unknown command).
    message: String,
}

impl Editor {
    pub closed spec fn spec_buffer(&self) -> Buffer {
        self.buffer
    }

    pub closed spec fn spec_viewport(&self) -> Viewport {
        self.viewport
    }

    pub closed spec fn spec_mode(&self) -> EditorMode {
        self.mode
    }

    /// The text held for pasting.
    pub closed spec fn spec_clipboard(&self) -> Seq<char> {
        self.clipboard@
    }

    pub closed spec fn spec_history(&self) -> History {
        self.undo_stack@
    }

    /// Whether the editor keeps running.
    pub closed spec fn spec_running(&self) -> bool {
        self.running
    }

    /// The text typed on the ":" command line.
    pub closed spec fn spec_command_line(&self) -> Seq<char> {
        self.command_buffer@
    }

    /// The message shown in the status bar.
    pub closed spec fn spec_message(&self) -> Seq<char> {
        self.message@
    }

    pub closed spec fn spec_theme(&self) -> Theme {
        self.config.theme
    }
}

/// The text of the buffer, as bytes.
pub open spec fn bytes_of(e: Editor) -> Seq<u8> {
    e.spec_buffer().spec_rope()@
}

/// The cursor of the buffer.
pub open spec fn cursor_of(e: Editor) -> nat {
    e.spec_buffer().spec_cursor() as nat
}

/// Everything but the buffer and the history is as before.
pub open spec fn rest_unchanged(pre: Editor, post: Editor) -> bool {
    &&& post.spec_viewport() == pre.spec_viewport()
    &&& post.spec_mode() == pre.spec_mode()
    &&& post.spec_clipboard() == pre.spec_clipboard()
    &&& post.spec_running() == pre.spec_running()
    &&& post.spec_command_line() == pre.spec_command_line()
    &&& post.spec_message() == pre.spec_message()
    &&& post.spec_theme() == pre.spec_theme()
}

/// Everything but the message is as before.
pub open spec fn only_message(pre: Editor, post: Editor, msg: Seq<char>) -> bool {
    &&& post.spec_buffer() == pre.spec_buffer()
    &&& post.spec_history() == pre.spec_history()
    &&& post.spec_viewport() == pre.spec_viewport()
    &&& post.spec_mode() == pre.spec_mode()
    &&& post.spec_clipboard() == pre.spec_clipboard()
    &&& post.spec_running() == pre.spec_running()
    &&& post.spec_command_line() == pre.spec_command_line()
    &&& post.spec_theme() == pre.spec_theme()
    &&& post.spec_message() == msg
}

/// `t` was put in at the cursor as an edit of kind `Insert`, and the
/// cursor moved past it.
pub open spec fn inserted_at_cursor(pre: Editor, post: Editor, t: Seq<u8>) -> bool {
    let pos = cursor_of(pre);
    &&& bytes_of(post) == inserted(bytes_of(pre), pos as int, t)
    &&& post.spec_buffer().spec_path() == pre.spec_buffer().spec_path()
    &&& post.spec_buffer().spec_dirty()
    &&& cursor_of(post) == pos + t.len()
    &&& post.spec_history() == push_step(
        pre.spec_history(),
        Edit {
            kind: EditKind::Insert,
            position: pre.spec_buffer().spec_cursor(),
            before: pre.spec_buffer().spec_rope(),
            after: post.spec_buffer().spec_rope(),
        },
    )
    &&& rest_unchanged(pre, post)
}

/// The bytes in `start..end` were removed as an edit of kind `Delete` at
/// `start`, and the cursor went to `cursor`.
pub open spec fn deleted_range(pre: Editor, post: Editor, start: nat, end: nat, cursor: nat) -> bool {
    &&& bytes_of(post) == deleted(bytes_of(pre), start as int, end as int)
    &&& post.spec_buffer().spec_path() == pre.spec_buffer().spec_path()
    &&& post.spec_buffer().spec_dirty()
    &&& cursor_of(post) == cursor
    &&& post.spec_history() == push_step(
        pre.spec_history(),
        Edit {
            kind: EditKind::Delete,
            position: start as usize,
            before: pre.spec_buffer().spec_rope(),
            after: post.spec_buffer().spec_rope(),
        },
    )
    &&& rest_unchanged(pre, post)
}

/// Where the line holding character `i` of `t` starts: just after the
/// nearest line feed before `i`, or at the start of the text.
pub open spec fn line_start(t: Seq<char>, i: int) -> int
    decreases i,
{
    if i <= 0 {
        0
    } else if t[i - 1] == '\n' {
        i
    } else {
        line_start(t, i - 1)
    }
}

/// Where the line of `t` that starts at character `s` ends: at its line
/// feed, or at the end of the text.
pub open spec fn line_end(t: Seq<char>, s: int) -> int
    decreases t.len() - s,
{
    if s >= t.len() {
        t.len() as int
    } else if t[s] == '\n' {
        s
    } else {
        line_end(t, s + 1)
    }
}

/// The start of the line `n` lines above the one that starts at `s`, or of
/// the first line when there are fewer lines above.
pub open spec fn start_up(t: Seq<char>, s: int, n: nat) -> int
    decreases n,
{
    if n == 0 || s <= 0 {
        s
    } else {
        start_up(t, line_start(t, s - 1), (n - 1) as nat)
    }
}

/// The start of the line `n` lines below the one that starts at `s`, or of
/// the last line when there are fewer lines below.
pub open spec fn start_down(t: Seq<char>, s: int, n: nat) -> int
    decreases n,
{
    if n == 0 || line_end(t, s) >= t.len() {
        s
    } else {
        start_down(t, line_end(t, s) + 1, (n - 1) as nat)
    }
}

/// The character that a move of `n` lines up (or down) from character `c`
/// of `t` lands on: the same column of the line it reaches, or that line's
/// end when the line is shorter.
pub open spec fn vertical_index(t: Seq<char>, c: int, up: bool, n: nat) -> int {
    let s = line_start(t, c);
    let target = if up { start_up(t, s, n) } else { start_down(t, s, n) };
    let col = c - s;
    let room = line_end(t, target) - target;
    target + if col < room { col } else { room }
}

/// Where a move of `n` in `dir` takes the cursor at byte `pos` of text `t`.
/// The cursor first settles on a character boundary (the start of the
/// character it is in, or the end of the text); left and right then step
/// over `n` whole characters, stopping at either end, and up and down go
/// `n` lines, keeping the column as far as the line reached allows.
pub open spec fn moved_position(t: Seq<char>, pos: nat, dir: Direction, n: nat) -> nat {
    let c = char_index(t, settled(encode_utf8(t), pos as int)) as int;
    byte_offset(
        t,
        match dir {
            Direction::Left => if c >= n { c - n } else { 0 },
            Direction::Right => if c + n <= t.len() { c + n } else { t.len() as int },
            Direction::Up => vertical_index(t, c, true, n),
            Direction::Down => vertical_index(t, c, false, n),
        },
    )
}

/// Where the line holding character `i` of `t` starts.
fn line_start_in(t: &Vec<char>, i: usize) -> (res: usize)
    requires
        i <= t@.len(),
    ensures
        res == line_start(t@, i as int),
        res <= i,
{
    let mut j = i;
    while j > 0 && t[j - 1] != '\n'
        invariant
            j <= i <= t@.len(),
            line_start(t@, j as int) == line_start(t@, i as int),
        decreases j,
    {
        j = j - 1;
    }
    j
}

/// Where the line of `t` that starts at character `s` ends.
fn line_end_in(t: &Vec<char>, s: usize) -> (res: usize)
    requires
        s <= t@.len(),
    ensures
        res == line_end(t@, s as int),
        s <= res <= t@.len(),
{
    let mut j = s;
    while j < t.len() && t[j] != '\n'
        invariant
            s <= j <= t@.len(),
            line_end(t@, j as int) == line_end(t@, s as int),
        decreases t@.len() - j,
    {
        j = j + 1;
    }
    j
}

/// The start of the line `n` lines above the one that starts at `s`.
fn start_up_in(t: &Vec<char>, s: usize, n: usize) -> (res: usize)
    requires
        s <= t@.len(),
    ensures
        res == start_up(t@, s as int, n as nat),
        res <= s,
{
    let mut cur = s;
    let mut k: usize = 0;
    while k < n && cur > 0
        invariant
            k <= n,
            cur <= s <= t@.len(),
            start_up(t@, cur as int, (n - k) as nat) == start_up(t@, s as int, n as nat),
        decreases n - k,
    {
        cur = line_start_in(t, cur - 1);
        k = k + 1;
    }
    cur
}

/// The start of the line `n` lines below the one that starts at `s`.
fn start_down_in(t: &Vec<char>, s: usize, n: usize) -> (res: usize)
    requires
        s <= t@.len(),
    ensures
        res == start_down(t@, s as int, n as nat),
        s <= res <= t@.len(),
{
    let mut cur = s;
    let mut k: usize = 0;
    let mut e = line_end_in(t, cur);
    while k < n && e < t.len()
        invariant
            k <= n,
            s <= cur <= t@.len(),
            e == line_end(t@, cur as int),
            cur <= e <= t@.len(),
            start_down(t@, cur as int, (n - k) as nat) == start_down(t@, s as int, n as nat),
        decreases n - k,
    {
        cur = e + 1;
        k = k + 1;
        e = line_end_in(t, cur);
    }
    cur
}

/// The character that a move of `n` lines up (or down) from character `c`
/// of `t` lands on.
fn vertical_target(t: &Vec<char>, c: usize, up: bool, n: usize) -> (res: usize)
    requires
        c <= t@.len(),
    ensures
        res == vertical_index(t@, c as int, up, n as nat),
        res <= t@.len(),
{
    let s = line_start_in(t, c);
    let target = if up {
        start_up_in(t, s, n)
    } else {
        start_down_in(t, s, n)
    };
    let col = c - s;
    let end = line_end_in(t, target);
    let room = end - target;
    target + if col < room {
        col
    } else {
        room
    }
}

/// The line (from 0) that byte `index` of `b` falls on.
pub open spec fn line_of(b: Seq<u8>, index: nat) -> nat {
    newline_count(decode_utf8(b.subrange(0, if index < b.len() { index as int } else { b.len() as int })))
}

/// The top line of a window at `top` of `height` lines once moved to show
/// `line`.
pub open spec fn top_showing(top: nat, height: nat, line: nat) -> nat {
    if line < top {
        line
    } else if height > 0 && line >= top + height {
        (line + 1 - height) as nat
    } else {
        top
    }
}

/// The `i`-th word of the command line, if there is one.
pub open spec fn word(line: Seq<char>, i: int) -> Option<Seq<char>> {
    if i < words(line).len() {
        Some(words(line)[i])
    } else {
        None
    }
}

/// Saving, after the file name `arg` if given: the buffer takes that name,
/// and either a write of the text is asked for or, with no file to save
/// to, the message says so.
pub open spec fn save_started(pre: Editor, post: Editor, arg: Option<Seq<char>>, eff: Effect) -> bool {
    let path = match arg {
        Some(p) => Some(p),
        None => pre.spec_buffer().spec_path(),
    };
    &&& post.spec_buffer().spec_rope() == pre.spec_buffer().spec_rope()
    &&& post.spec_buffer().spec_path() == path
    &&& post.spec_buffer().spec_dirty() == pre.spec_buffer().spec_dirty()
    &&& cursor_of(post) == cursor_of(pre)
    &&& post.spec_history() == pre.spec_history()
    &&& post.spec_viewport() == pre.spec_viewport()
    &&& post.spec_clipboard() == pre.spec_clipboard()
    &&& post.spec_theme() == pre.spec_theme()
    &&& match path {
        Some(p) => {
            &&& eff matches Effect::WriteFile { path: wp, contents }
            &&& wp@ == p
            &&& contents@ == pre.spec_buffer().spec_rope().text()
            &&& post.spec_message() == pre.spec_message()
        },
        None => {
            &&& eff is Nothing
            &&& post.spec_message() == "error al guardar: "@ + "buffer sin archivo asociado"@
        },
    }
}

/// Opening the file at `p`: refused with a message while there are unsaved
/// changes unless forced, else a read of the file is asked for.
pub open spec fn open_started(pre: Editor, post: Editor, p: Seq<char>, force: bool, eff: Effect) -> bool {
    if pre.spec_buffer().spec_dirty() && !force {
        &&& eff is Nothing
        &&& post.spec_message() == "hay cambios sin guardar — usá :e! para descartarlos"@
    } else {
        &&& eff matches Effect::ReadFile { path }
        &&& path@ == p
        &&& post.spec_message() == pre.spec_message()
    }
}

/// What running the command line does, apart from the return to Normal
/// mode with an empty command line that follows. The first word is the command
/// and the second, if any, its argument: `w [file]` saves, `q` quits,
/// `wq [file]` and `x [file]` save and quit, `e file` opens a file unless
/// there are unsaved changes, `e! file` opens it anyway; no word does
/// nothing, and anything else is reported as unknown.
pub open spec fn command_line_run(pre: Editor, post: Editor, eff: Effect) -> bool {
    let line = pre.spec_command_line();
    let cmd = match word(line, 0) { Some(w) => w, None => Seq::empty() };
    let arg = word(line, 1);
    let same_but_message = {
        &&& post.spec_buffer() == pre.spec_buffer()
        &&& post.spec_history() == pre.spec_history()
        &&& post.spec_viewport() == pre.spec_viewport()
        &&& post.spec_clipboard() == pre.spec_clipboard()
        &&& post.spec_theme() == pre.spec_theme()
    };
    if cmd == "w"@ {
        save_started(pre, post, arg, eff) && post.spec_running() == pre.spec_running()
    } else if cmd == "q"@ {
        same_but_message && post.spec_message() == pre.spec_message() && !post.spec_running() && eff is Nothing
    } else if cmd == "wq"@ || cmd == "x"@ {
        save_started(pre, post, arg, eff) && !post.spec_running()
    } else if cmd == "e"@ || cmd == "e!"@ {
        &&& same_but_message
        &&& post.spec_running() == pre.spec_running()
        &&& match arg {
            Some(p) => open_started(pre, post, p, cmd == "e!"@, eff),
            None => {
                &&& eff is Nothing
                &&& post.spec_message() == if cmd == "e"@ {
                    "uso: :e archivo.txt"@
                } else {
                    "uso: :e! archivo.txt"@
                }
            },
        }
    } else if cmd.len() == 0 {
        same_but_message && post.spec_message() == pre.spec_message() && post.spec_running()
            == pre.spec_running() && eff is Nothing
    } else {
        &&& same_but_message
        &&& post.spec_running() == pre.spec_running()
        &&& post.spec_message() == "comando desconocido: "@ + cmd
        &&& eff is Nothing
    }
}

/// Whether `cmd` can be carried out without a panic: edits need the cursor
/// on a character boundary and the text to stay within a `usize` of bytes;
/// moves need only the window to stay within the range of a `usize`.
pub open spec fn can_execute(e: Editor, cmd: Command) -> bool {
    let b = bytes_of(e);
    let pos = cursor_of(e);
    match cmd {
        Command::InsertChar(c) => is_char_boundary(b, pos as int) && b.len() + encode_utf8(seq![c]).len() <= usize::MAX,
        Command::InsertNewline => is_char_boundary(b, pos as int) && b.len() + 1 <= usize::MAX,
        Command::DeleteCharBackward => pos > 0 ==> is_char_boundary(b, pos as int),
        Command::DeleteCharForward => pos < b.len() ==> is_char_boundary(b, pos as int),
        Command::MoveCursor(dir, n) => {
            let np = moved_position(e.spec_buffer().spec_rope().text(), pos, dir, n as nat);
            let line = line_of(b, np);
            let top = e.spec_viewport().spec_top();
            let height = e.spec_viewport().spec_height();
            &&& line >= top && height > 0 ==> top + height <= usize::MAX
            &&& line >= top + height && height > 0 ==> line < usize::MAX
        },
        Command::Copy => pos >= b.len() || is_char_boundary(b, pos as int),
        Command::Paste => is_char_boundary(b, pos as int) && b.len() + encode_utf8(e.spec_clipboard()).len() <= usize::MAX,
        _ => true,
    }
}

/// What carrying out `cmd` does, with the effect it asks for.
pub open spec fn executed(pre: Editor, post: Editor, cmd: Command, eff: Effect) -> bool {
    let b = bytes_of(pre);
    let pos = cursor_of(pre);
    match cmd {
        Command::InsertChar(c) => inserted_at_cursor(pre, post, encode_utf8(seq![c])) && eff is Nothing,
        Command::InsertNewline => inserted_at_cursor(pre, post, encode_utf8(seq!['\n'])) && eff is Nothing,
        Command::DeleteCharBackward => eff is Nothing && if pos > 0 {
            let start = prev_boundary(b, pos as int) as nat;
            deleted_range(pre, post, start, pos, start)
        } else {
            same_state(pre, post)
        },
        Command::DeleteCharForward => eff is Nothing && if pos < b.len() {
            deleted_range(pre, post, pos, next_boundary(b, pos as int) as nat, pos)
        } else {
            same_state(pre, post)
        },
        Command::MoveCursor(dir, n) => {
            let np = moved_position(pre.spec_buffer().spec_rope().text(), pos, dir, n as nat);
            &&& post.spec_buffer().spec_rope() == pre.spec_buffer().spec_rope()
            &&& post.spec_buffer().spec_path() == pre.spec_buffer().spec_path()
            &&& post.spec_buffer().spec_dirty() == pre.spec_buffer().spec_dirty()
            &&& cursor_of(post) == np
            &&& post.spec_viewport().spec_top() == top_showing(
                pre.spec_viewport().spec_top(),
                pre.spec_viewport().spec_height(),
                line_of(b, np),
            )
            &&& post.spec_viewport().spec_left() == pre.spec_viewport().spec_left()
            &&& post.spec_viewport().spec_width() == pre.spec_viewport().spec_width()
            &&& post.spec_viewport().spec_height() == pre.spec_viewport().spec_height()
            &&& post.spec_history() == pre.spec_history()
            &&& post.spec_mode() == pre.spec_mode()
            &&& post.spec_clipboard() == pre.spec_clipboard()
            &&& post.spec_running() == pre.spec_running()
            &&& post.spec_command_line() == pre.spec_command_line()
            &&& post.spec_message() == pre.spec_message()
            &&& post.spec_theme() == pre.spec_theme()
            &&& eff is Nothing
        },
        Command::Save => save_started(pre, post, None, eff) && post.spec_mode() == pre.spec_mode()
            && post.spec_running() == pre.spec_running() && post.spec_command_line() == pre.spec_command_line(),
        Command::Quit => {
            &&& post.spec_buffer() == pre.spec_buffer()
            &&& post.spec_history() == pre.spec_history()
            &&& rest_unchanged_but_running(pre, post)
            &&& !post.spec_running()
            &&& eff is Nothing
        },
        Command::Undo => eff is Nothing && match undo_step(pre.spec_history()) {
            (h, Some(edit)) => {
                &&& post.spec_history() == h
                &&& post.spec_buffer().spec_rope() == edit.before
                &&& post.spec_buffer().spec_path() == pre.spec_buffer().spec_path()
                &&& post.spec_buffer().spec_dirty() == pre.spec_buffer().spec_dirty()
                &&& cursor_of(post) == if edit.position < edit.before@.len() {
                    edit.position as nat
                } else {
                    edit.before@.len()
                }
                &&& rest_unchanged(pre, post)
            },
            (_, None) => same_state(pre, post),
        },
        Command::Redo => eff is Nothing && match redo_step(pre.spec_history()) {
            (h, Some(edit)) => {
                &&& post.spec_history() == h
                &&& post.spec_buffer().spec_rope() == edit.after
                &&& post.spec_buffer().spec_path() == pre.spec_buffer().spec_path()
                &&& post.spec_buffer().spec_dirty() == pre.spec_buffer().spec_dirty()
                &&& cursor_of(post) == cursor_of(pre)
                &&& rest_unchanged(pre, post)
            },
            (_, None) => same_state(pre, post),
        },
        Command::Copy => {
            let text = pre.spec_buffer().spec_rope().text();
            let n = line_of(b, pos);
            &&& post.spec_clipboard() == if n < lines(text).len() { lines(text)[n as int] } else { Seq::empty() }
            &&& post.spec_buffer() == pre.spec_buffer()
            &&& post.spec_history() == pre.spec_history()
            &&& post.spec_viewport() == pre.spec_viewport()
            &&& post.spec_mode() == pre.spec_mode()
            &&& post.spec_running() == pre.spec_running()
            &&& post.spec_command_line() == pre.spec_command_line()
            &&& post.spec_message() == pre.spec_message()
            &&& post.spec_theme() == pre.spec_theme()
            &&& eff is Nothing
        },
        Command::Paste => inserted_at_cursor(pre, post, encode_utf8(pre.spec_clipboard())) && eff is Nothing,
        Command::SwitchMode(m) => {
            &&& post.spec_mode() == m
            &&& post.spec_command_line() == if m == EditorMode::Command {
                Seq::empty()
            } else {
                pre.spec_command_line()
            }
            &&& post.spec_message() == if m == EditorMode::Command {
                Seq::empty()
            } else {
                pre.spec_message()
            }
            &&& post.spec_buffer() == pre.spec_buffer()
            &&& post.spec_history() == pre.spec_history()
            &&& post.spec_viewport() == pre.spec_viewport()
            &&& post.spec_clipboard() == pre.spec_clipboard()
            &&& post.spec_running() == pre.spec_running()
            &&& post.spec_theme() == pre.spec_theme()
            &&& eff is Nothing
        },
        Command::CommandChar(c) => {
            &&& post.spec_command_line() == pre.spec_command_line().push(c)
            &&& only_command_line_changed(pre, post)
            &&& eff is Nothing
        },
        Command::CommandBackspace => {
            &&& post.spec_command_line() == if pre.spec_command_line().len() > 0 {
                pre.spec_command_line().drop_last()
            } else {
                pre.spec_command_line()
            }
            &&& only_command_line_changed(pre, post)
            &&& eff is Nothing
        },
        Command::CommandExecute => {
            &&& post.spec_mode() == EditorMode::Normal
            &&& post.spec_command_line() == Seq::<char>::empty()
            &&& command_line_run(pre, post, eff)
        },
        Command::NoOp => same_state(pre, post) && eff is Nothing,
    }
}

/// Nothing observable has changed.
pub open spec fn same_state(pre: Editor, post: Editor) -> bool {
    &&& post.spec_buffer() == pre.spec_buffer()
    &&& post.spec_history() == pre.spec_history()
    &&& rest_unchanged(pre, post)
}

/// The name shown for a mode.
pub open spec fn mode_name(m: EditorMode) -> Seq<char> {
    match m {
        EditorMode::Normal => "NORMAL"@,
        EditorMode::Insert => "INSERT"@,
        EditorMode::Visual => "VISUAL"@,
        EditorMode::Command => "COMMAND"@,
    }
}

/// The status bar: while a command is typed, the command line after a
/// colon; otherwise the mode, the file name (or "[sin nombre]"), "[+]"
/// when there are unsaved changes, and the message, or the cursor's byte
/// offset when there is none.
pub open spec fn status_text(e: Editor) -> Seq<char> {
    if e.spec_mode() == EditorMode::Command {
        " :"@ + e.spec_command_line()
    } else {
        let modified = if e.spec_buffer().spec_dirty() { "[+]"@ } else { ""@ };
        let name = match e.spec_buffer().spec_path() {
            Some(p) => p,
            None => "[sin nombre]"@,
        };
        let tail = if e.spec_message().len() == 0 {
            "pos "@ + decimal(cursor_of(e))
        } else {
            e.spec_message()
        };
        " "@ + mode_name(e.spec_mode()) + " "@ + name + " "@ + modified + " — "@ + tail + " "@
    }
}

/// The keys that work in every mode.
pub open spec fn global_hints() -> Seq<char> {
    "^S Guardar │ ^Q Salir │ ^R Rehacer"@
}

/// The key hints shown for a mode.
pub open spec fn hints_text(m: EditorMode) -> Seq<char> {
    match m {
        EditorMode::Normal => "i Insertar │ : Comando │ x Borrar │ y Copiar línea │ p Pegar │ u Deshacer │ ←↑↓→ Mover │ "@
            + global_hints(),
        EditorMode::Insert => "Esc Volver a Normal │ Enter Nueva línea │ Backspace Borrar │ "@ + global_hints(),
        EditorMode::Command => "Enter Ejecutar │ Esc Cancelar │ :w [archivo] Guardar │ :e archivo Abrir │ :q Salir │ :wq Guardar y salir"@,
        EditorMode::Visual => "(modo sin atajos propios todavía) │ "@ + global_hints(),
    }
}

/// Everything but whether the editor runs is as before, apart from the
/// buffer and history.
pub open spec fn rest_unchanged_but_running(pre: Editor, post: Editor) -> bool {
    &&& post.spec_viewport() == pre.spec_viewport()
    &&& post.spec_mode() == pre.spec_mode()
    &&& post.spec_clipboard() == pre.spec_clipboard()
    &&& post.spec_command_line() == pre.spec_command_line()
    &&& post.spec_message() == pre.spec_message()
    &&& post.spec_theme() == pre.spec_theme()
}

/// Everything but the command line is as before.
pub open spec fn only_command_line_changed(pre: Editor, post: Editor) -> bool {
    &&& post.spec_buffer() == pre.spec_buffer()
    &&& post.spec_history() == pre.spec_history()
    &&& post.spec_viewport() == pre.spec_viewport()
    &&& post.spec_mode() == pre.spec_mode()
    &&& post.spec_clipboard() == pre.spec_clipboard()
    &&& post.spec_running() == pre.spec_running()
    &&& post.spec_message() == pre.spec_message()
    &&& post.spec_theme() == pre.spec_theme()
}

/// `prefix` followed by `rest`, as a new string.
fn joined(prefix: &str, rest: &str) -> (res: String)
    ensures
        res@ == prefix@ + rest@,
{
    let mut m = String::from_str(prefix);
    m.append(rest);
    m
}

impl Editor {
    /// An editor for a window of `width` by `height` cells: an empty
    /// buffer, with the last two rows kept for the key hints and the status
    /// bar (but at least one row for text), in Normal mode.
    pub fn new(width: u16, height: u16) -> (res: Self)
        ensures
            res.spec_buffer().spec_rope().text() == Seq::<char>::empty(),
            res.spec_buffer().spec_path() == None::<Seq<char>>,
            !res.spec_buffer().spec_dirty(),
            res.spec_buffer().spec_cursor() == 0,
            res.spec_viewport().spec_top() == 0,
            res.spec_viewport().spec_left() == 0,
            res.spec_viewport().spec_width() == width,
            res.spec_viewport().spec_height() == if height > 3 { height - 2 } else { 1 },
            res.spec_mode() == EditorMode::Normal,
            res.spec_clipboard() == Seq::<char>::empty(),
            res.spec_history() == (Seq::<Edit>::empty(), Seq::<Edit>::empty()),
            res.spec_running(),
            res.spec_command_line() == Seq::<char>::empty(),
            res.spec_message() == Seq::<char>::empty(),
            res.spec_theme() == default_theme(),
    {
        let rows = height.saturating_sub(2);
        let rows = if rows > 1 { rows } else { 1 };
        Editor {
            buffer: Buffer::new(),
            viewport: Viewport::new(width as usize, rows as usize),
            input_handler: InputHandler::new(),
            mode: EditorMode::Normal,
            clipboard: Clipboard::new(),
            undo_stack: UndoStack::new(),
            config: Config::default(),
            running: true,
            command_buffer: Vec::new(),
            message: String::new(),
        }
    }

    /// Loads `text`, read from the file at `path`, into a fresh buffer tied
    /// to that file; the rest of the editor is kept.
    pub fn open_file(&mut self, path: String, text: &str)
        ensures
            final(self).spec_buffer().spec_rope().text() == text@,
            final(self).spec_buffer().spec_path() == Some(path@),
            !final(self).spec_buffer().spec_dirty(),
            final(self).spec_buffer().spec_cursor() == 0,
            final(self).spec_history() == old(self).spec_history(),
            rest_unchanged(*old(self), *final(self)),
    {
        self.buffer = Buffer::from_text(path, text);
    }

    /// Ties the buffer to a file that does not exist yet, so that saving
    /// creates it.
    pub fn set_new_file_path(&mut self, path: String)
        ensures
            final(self).spec_buffer().spec_rope() == old(self).spec_buffer().spec_rope(),
            final(self).spec_buffer().spec_path() == Some(path@),
            final(self).spec_buffer().spec_dirty() == old(self).spec_buffer().spec_dirty(),
            cursor_of(*final(self)) == cursor_of(*old(self)),
            final(self).spec_history() == old(self).spec_history(),
            rest_unchanged(*old(self), *final(self)),
    {
        self.buffer.set_file_path(path);
    }

    /// What saving the buffer writes: its file's path and its text, or the
    /// error that there is no file to save to.
    pub fn save_file(&self) -> (res: Result<(String, String), String>)
        ensures
            match res {
                Ok((path, text)) => self.spec_buffer().spec_path() == Some(path@)
                    && text@ == self.spec_buffer().spec_rope().text(),
                Err(msg) => self.spec_buffer().spec_path() is None && msg@ == "buffer sin archivo asociado"@,
            },
    {
        self.buffer.save_request()
    }

    /// The colours in use.
    pub fn theme(&self) -> (res: &Theme)
        ensures
            *res == self.spec_theme(),
    {
        &self.config.theme
    }

    /// The buffer being edited.
    pub fn buffer(&self) -> (res: &Buffer)
        ensures
            *res == self.spec_buffer(),
    {
        &self.buffer
    }

    /// The window onto the buffer.
    pub fn viewport(&self) -> (res: &Viewport)
        ensures
            *res == self.spec_viewport(),
    {
        &self.viewport
    }

    /// Whether the editor keeps running.
    pub fn is_running(&self) -> (res: bool)
        ensures
            res == self.spec_running(),
    {
        self.running
    }

    /// The text of the status bar.
    pub fn status_line(&self) -> (res: String)
        ensures
            res@ == status_text(*self),
    {
        if self.mode == EditorMode::Command {
            let mut s = String::from_str(" :");
            let line = string_from_chars(&self.command_buffer);
            s.append(line.as_str());
            return s;
        }
        let mode = match self.mode {
            EditorMode::Normal => "NORMAL",
            EditorMode::Insert => "INSERT",
            EditorMode::Visual => "VISUAL",
            EditorMode::Command => "COMMAND",
        };
        let modified = if self.buffer.is_modified() { "[+]" } else { "" };
        let name = match self.buffer.file_path() {
            Some(p) => p,
            None => "[sin nombre]",
        };
        let mut s = String::from_str(" ");
        s.append(mode);
        s.append(" ");
        s.append(name);
        s.append(" ");
        s.append(modified);
        s.append(" — ");
        if self.message.as_str().is_empty() {
            s.append("pos ");
            let n = decimal_string(self.buffer.cursor());
            s.append(n.as_str());
        } else {
            s.append(self.message.as_str());
        }
        s.append(" ");
        s
    }

    /// The key hints for the current mode, separated by "│" in the style
    /// of nano.
    pub fn keybind_hints(&self) -> (res: String)
        ensures
            res@ == hints_text(self.spec_mode()),
    {
        let global = "^S Guardar │ ^Q Salir │ ^R Rehacer";
        match self.mode {
            EditorMode::Normal => joined(
                "i Insertar │ : Comando │ x Borrar │ y Copiar línea │ p Pegar │ u Deshacer │ ←↑↓→ Mover │ ",
                global,
            ),
            EditorMode::Insert => joined("Esc Volver a Normal │ Enter Nueva línea │ Backspace Borrar │ ", global),
            EditorMode::Command => String::from_str(
                "Enter Ejecutar │ Esc Cancelar │ :w [archivo] Guardar │ :e archivo Abrir │ :q Salir │ :wq Guardar y salir",
            ),
            EditorMode::Visual => joined("(modo sin atajos propios todavía) │ ", global),
        }
    }

    /// Whether the command that `event` stands for can be carried out now;
    /// `handle_input` asks this of its caller.
    pub fn can_handle(&self, event: &KeyEvent) -> (res: bool)
        ensures
            res == can_execute(*self, key_command(*event, self.spec_mode())),
    {
        let command = self.input_handler.map_key(*event, self.mode);
        let rope = self.buffer.rope();
        let len = rope.len();
        let pos = self.buffer.cursor();
        match command {
            Command::InsertChar(c) => {
                let mut s = String::new();
                push_char(&mut s, c);
                let clen = s.as_str().len();
                proof { lemma_char_len(c); }
                rope.is_char_boundary(pos) && clen <= usize::MAX - len
            },
            Command::InsertNewline => rope.is_char_boundary(pos) && len < usize::MAX,
            Command::DeleteCharBackward => pos == 0 || rope.is_char_boundary(pos),
            Command::DeleteCharForward => pos >= len || rope.is_char_boundary(pos),
            Command::MoveCursor(dir, n) => {
                let np = self.move_target(dir, n);
                let line = rope.line_at(np);
                self.viewport.can_show(line)
            },
            Command::Copy => pos >= len || rope.is_char_boundary(pos),
            Command::Paste => {
                let clip = self.clipboard.paste();
                rope.is_char_boundary(pos) && clip.len() <= usize::MAX - len
            },
            _ => true,
        }
    }

    /// Carries out the command that `event` stands for in the current mode.
    pub fn handle_input(&mut self, event: KeyEvent) -> (res: Effect)
        requires
            can_execute(*old(self), key_command(event, old(self).spec_mode())),
        ensures
            executed(*old(self), *final(self), key_command(event, old(self).spec_mode()), res),
    {
        let command = self.input_handler.map_key(event, self.mode);
        self.execute(command)
    }

    fn record_edit(&mut self, kind: EditKind, position: usize, before: Rope, after: Rope)
        ensures
            final(self).spec_history() == push_step(
                old(self).spec_history(),
                Edit { kind, position, before, after },
            ),
            final(self).spec_buffer() == old(self).spec_buffer(),
            rest_unchanged(*old(self), *final(self)),
    {
        self.undo_stack.push(Edit { kind, position, before, after });
    }

    /// Puts `text` in at the cursor, moves the cursor past it and records
    /// the edit.
    fn insert_at_cursor(&mut self, text: &str)
        requires
            is_char_boundary(bytes_of(*old(self)), cursor_of(*old(self)) as int),
            bytes_of(*old(self)).len() + encode_utf8(text@).len() <= usize::MAX,
        ensures
            inserted_at_cursor(*old(self), *final(self), encode_utf8(text@)),
    {
        let pos = self.buffer.cursor();
        let before = self.buffer.rope().clone();
        self.buffer.insert(pos, text);
        let after = self.buffer.rope().clone();
        let tlen = text.len();
        self.buffer.set_cursor(pos + tlen);
        self.record_edit(EditKind::Insert, pos, before, after);
    }

    /// Where a move of `n` in `dir` takes the cursor.
    fn move_target(&self, dir: Direction, n: usize) -> (res: usize)
        ensures
            res == moved_position(self.spec_buffer().spec_rope().text(), cursor_of(*self), dir, n as nat),
            res <= bytes_of(*self).len(),
            is_char_boundary(bytes_of(*self), res as int),
    {
        let rope = self.buffer.rope();
        let ghost t = rope.text();
        let s = rope.settle(self.buffer.cursor());
        let ghost c = char_index(t, s as int) as int;
        proof { lemma_char_index(t, s as int); }
        let res = match dir {
            Direction::Left => rope.chars_back(s, n),
            Direction::Right => rope.chars_forward(s, n),
            Direction::Up | Direction::Down => {
                let c_exec = rope.char_index_of(s);
                let text = rope.to_string();
                let chars = chars_of(text.as_str());
                let tc = vertical_target(&chars, c_exec, dir == Direction::Up, n);
                let head = string_of(&chars, 0, tc);
                proof {
                    assert(chars@.subrange(0, tc as int) == t.take(tc as int));
                }
                utf8_len(head.as_str())
            },
        };
        proof {
            let k = match dir {
                Direction::Left => if c >= n { c - n } else { 0 },
                Direction::Right => if c + n <= t.len() { c + n } else { t.len() as int },
                Direction::Up => vertical_index(t, c, true, n as nat),
                Direction::Down => vertical_index(t, c, false, n as nat),
            };
            assert(res == byte_offset(t, k));
            lemma_byte_offset(t, k);
        }
        res
    }

    fn move_cursor(&mut self, dir: Direction, n: usize)
        requires
            can_execute(*old(self), Command::MoveCursor(dir, n)),
        ensures
            executed(*old(self), *final(self), Command::MoveCursor(dir, n), Effect::Nothing),
    {
        let new_pos = self.move_target(dir, n);
        self.buffer.set_cursor(new_pos);
        let line = self.buffer.rope().line_at(new_pos);
        self.viewport.ensure_visible(line);
    }

    /// Starts a save, first tying the buffer to `arg` if given.
    fn do_save(&mut self, arg: Option<String>) -> (eff: Effect)
        ensures
            save_started(*old(self), *final(self), match arg { Some(p) => Some(p@), None => None }, eff),
            final(self).spec_mode() == old(self).spec_mode(),
            final(self).spec_running() == old(self).spec_running(),
            final(self).spec_command_line() == old(self).spec_command_line(),
    {
        if let Some(p) = arg {
            self.buffer.set_file_path(p);
        }
        match self.buffer.save_request() {
            Ok((path, contents)) => Effect::WriteFile { path, contents },
            Err(e) => {
                self.message = joined("error al guardar: ", e.as_str());
                Effect::Nothing
            },
        }
    }

    /// Starts opening the file at `path`; while there are unsaved changes
    /// it refuses, unless `force` says to drop them.
    fn do_open(&mut self, path: String, force: bool) -> (eff: Effect)
        ensures
            open_started(*old(self), *final(self), path@, force, eff),
            final(self).spec_buffer() == old(self).spec_buffer(),
            final(self).spec_history() == old(self).spec_history(),
            final(self).spec_viewport() == old(self).spec_viewport(),
            final(self).spec_mode() == old(self).spec_mode(),
            final(self).spec_clipboard() == old(self).spec_clipboard(),
            final(self).spec_running() == old(self).spec_running(),
            final(self).spec_command_line() == old(self).spec_command_line(),
            final(self).spec_theme() == old(self).spec_theme(),
    {
        if self.buffer.is_modified() && !force {
            self.message = String::from_str("hay cambios sin guardar — usá :e! para descartarlos");
            return Effect::Nothing;
        }
        Effect::ReadFile { path }
    }

    /// Runs what was typed on the command line.
    fn run_command_line(&mut self) -> (eff: Effect)
        ensures
            command_line_run(*old(self), *final(self), eff),
            final(self).spec_mode() == old(self).spec_mode(),
            final(self).spec_command_line() == old(self).spec_command_line(),
    {
        let ws = split_words(&self.command_buffer);
        let empty: Vec<char> = Vec::new();
        let cmd: &Vec<char> = if ws.len() > 0 { &ws[0] } else { &empty };
        let arg: Option<String> = if ws.len() > 1 { Some(string_from_chars(&ws[1])) } else { None };
        proof {
            let line = self.command_buffer@;
            assert(cmd@ == match word(line, 0) { Some(w) => w, None => Seq::<char>::empty() });
            assert(match arg { Some(p) => Some(p@), None => None } == word(line, 1));
        }
        if same_chars(cmd, "w") {
            self.do_save(arg)
        } else if same_chars(cmd, "q") {
            self.running = false;
            Effect::Nothing
        } else if same_chars(cmd, "wq") || same_chars(cmd, "x") {
            let eff = self.do_save(arg);
            self.running = false;
            eff
        } else if same_chars(cmd, "e") || same_chars(cmd, "e!") {
            let force = same_chars(cmd, "e!");
            match arg {
                Some(path) => self.do_open(path, force),
                None => {
                    self.message = if same_chars(cmd, "e") {
                        String::from_str("uso: :e archivo.txt")
                    } else {
                        String::from_str("uso: :e! archivo.txt")
                    };
                    Effect::Nothing
                },
            }
        } else if cmd.len() == 0 {
            Effect::Nothing
        } else {
            let name = string_from_chars(cmd);
            self.message = joined("comando desconocido: ", name.as_str());
            Effect::Nothing
        }
    }

    fn execute(&mut self, command: Command) -> (eff: Effect)
        requires
            can_execute(*old(self), command),
        ensures
            executed(*old(self), *final(self), command, eff),
    {
        match command {
            Command::InsertChar(c) => {
                let mut s = String::new();
                push_char(&mut s, c);
                self.insert_at_cursor(s.as_str());
                Effect::Nothing
            },
            Command::InsertNewline => {
                proof {
                    reveal_strlit("\n");
                    assert("\n"@ =~= seq!['\n']);
                    lemma_newline_len();
                }
                self.insert_at_cursor("\n");
                Effect::Nothing
            },
            Command::DeleteCharBackward => {
                let pos = self.buffer.cursor();
                if pos > 0 {
                    let ghost b = self.buffer.spec_rope()@;
                    proof { law_prev_boundary_one_char(b, pos as int); }
                    let start = self.buffer.rope().prev_char_boundary(pos);
                    let before = self.buffer.rope().clone();
                    self.buffer.delete(start, pos);
                    let after = self.buffer.rope().clone();
                    self.buffer.set_cursor(start);
                    self.record_edit(EditKind::Delete, start, before, after);
                }
                Effect::Nothing
            },
            Command::DeleteCharForward => {
                let pos = self.buffer.cursor();
                if pos < self.buffer.rope().len() {
                    let ghost b = self.buffer.spec_rope()@;
                    proof { law_next_boundary_one_char(b, pos as int); }
                    let end = self.buffer.rope().next_char_boundary(pos);
                    let before = self.buffer.rope().clone();
                    self.buffer.delete(pos, end);
                    let after = self.buffer.rope().clone();
                    self.record_edit(EditKind::Delete, pos, before, after);
                }
                Effect::Nothing
            },
            Command::MoveCursor(dir, n) => {
                self.move_cursor(dir, n);
                Effect::Nothing
            },
            Command::Save => self.do_save(None),
            Command::Quit => {
                self.running = false;
                Effect::Nothing
            },
            Command::Undo => {
                if let Some(edit) = self.undo_stack.undo() {
                    self.buffer.set_rope(edit.before);
                    self.buffer.set_cursor(edit.position);
                }
                Effect::Nothing
            },
            Command::Redo => {
                if let Some(edit) = self.undo_stack.redo() {
                    self.buffer.set_rope(edit.after);
                }
                Effect::Nothing
            },
            Command::Copy => {
                let line_num = self.buffer.rope().line_at(self.buffer.cursor());
                let text = self.buffer.line(line_num);
                self.clipboard.copy(text.as_str());
                Effect::Nothing
            },
            Command::Paste => {
                let text = String::from_str(self.clipboard.paste());
                self.insert_at_cursor(text.as_str());
                Effect::Nothing
            },
            Command::SwitchMode(m) => {
                if m == EditorMode::Command {
                    self.command_buffer.clear();
                    self.message = String::new();
                }
                self.mode = m;
                Effect::Nothing
            },
            Command::CommandChar(c) => {
                self.command_buffer.push(c);
                Effect::Nothing
            },
            Command::CommandBackspace => {
                self.command_buffer.pop();
                Effect::Nothing
            },
            Command::CommandExecute => {
                let eff = self.run_command_line();
                self.mode = EditorMode::Normal;
                self.command_buffer.clear();
                eff
            },
            Command::NoOp => Effect::Nothing,
        }
    }

    /// Takes in the outcome of a write asked for by a save: on success the
    /// buffer no longer counts as modified and the message names the file;
    /// on failure the message gives the error.
    pub fn finish_save(&mut self, outcome: Result<(), String>)
        ensures
            match outcome {
                Ok(()) => {
                    &&& final(self).spec_buffer().spec_rope() == old(self).spec_buffer().spec_rope()
                    &&& final(self).spec_buffer().spec_path() == old(self).spec_buffer().spec_path()
                    &&& !final(self).spec_buffer().spec_dirty()
                    &&& cursor_of(*final(self)) == cursor_of(*old(self))
                    &&& final(self).spec_history() == old(self).spec_history()
                    &&& final(self).spec_viewport() == old(self).spec_viewport()
                    &&& final(self).spec_mode() == old(self).spec_mode()
                    &&& final(self).spec_clipboard() == old(self).spec_clipboard()
                    &&& final(self).spec_running() == old(self).spec_running()
                    &&& final(self).spec_command_line() == old(self).spec_command_line()
                    &&& final(self).spec_theme() == old(self).spec_theme()
                    &&& final(self).spec_message() == "guardado en "@ + match old(self).spec_buffer().spec_path() {
                        Some(p) => p,
                        None => "?"@,
                    }
                },
                Err(e) => only_message(*old(self), *final(self), "error al guardar: "@ + e@),
            },
    {
        match outcome {
            Ok(()) => {
                self.buffer.mark_saved();
                let name = match self.buffer.file_path() {
                    Some(p) => p,
                    None => "?",
                };
                self.message = joined("guardado en ", name);
            },
            Err(e) => {
                self.message = joined("error al guardar: ", e.as_str());
            },
        }
    }

    /// Takes in the outcome of a read asked for by ":e": on success the
    /// text becomes a fresh buffer tied to `path`, the undo history (which
    /// belonged to the previous file) is cleared and the message names the
    /// file; on failure the message gives the error.
    pub fn finish_open(&mut self, path: String, outcome: Result<String, String>)
        ensures
            match outcome {
                Ok(t) => {
                    &&& final(self).spec_buffer().spec_rope().text() == t@
                    &&& final(self).spec_buffer().spec_path() == Some(path@)
                    &&& !final(self).spec_buffer().spec_dirty()
                    &&& final(self).spec_buffer().spec_cursor() == 0
                    &&& final(self).spec_history() == (Seq::<Edit>::empty(), Seq::<Edit>::empty())
                    &&& final(self).spec_viewport() == old(self).spec_viewport()
                    &&& final(self).spec_mode() == old(self).spec_mode()
                    &&& final(self).spec_clipboard() == old(self).spec_clipboard()
                    &&& final(self).spec_running() == old(self).spec_running()
                    &&& final(self).spec_command_line() == old(self).spec_command_line()
                    &&& final(self).spec_theme() == old(self).spec_theme()
                    &&& final(self).spec_message() == "abierto "@ + path@
                },
                Err(e) => only_message(*old(self), *final(self), "error al abrir: "@ + e@),
            },
    {
        match outcome {
            Ok(text) => {
                let message = joined("abierto ", path.as_str());
                self.open_file(path, text.as_str());
                self.undo_stack = UndoStack::new();
                self.message = message;
            },
            Err(e) => {
                self.message = joined("error al abrir: ", e.as_str());
            },
        }
    }
}

/// Whether `cmd` is an edit that changes the text when carried out in `e`.
pub open spec fn changes_text(e: Editor, cmd: Command) -> bool {
    match cmd {
        Command::InsertChar(_) => true,
        Command::InsertNewline => true,
        Command::Paste => true,
        Command::DeleteCharBackward => cursor_of(e) > 0,
        Command::DeleteCharForward => cursor_of(e) < bytes_of(e).len(),
        _ => false,
    }
}

proof fn lemma_boundary_in_range(b: Seq<u8>, i: int)
    requires
        valid_utf8(b),
        is_char_boundary(b, i),
    ensures
        0 <= i <= b.len(),
{
    reveal_with_fuel(is_char_boundary, 1);
}

/// Undoing right after an edit gives back the text as it was before the
/// edit, puts the cursor where the edit was made, and leaves the same
/// edits to undo as before it.
pub proof fn law_undo_reverts_edit(pre: Editor, mid: Editor, post: Editor, cmd: Command, e1: Effect, e2: Effect)
    requires
        changes_text(pre, cmd),
        can_execute(pre, cmd),
        executed(pre, mid, cmd, e1),
        executed(mid, post, Command::Undo, e2),
    ensures
        post.spec_buffer().spec_rope() == pre.spec_buffer().spec_rope(),
        post.spec_history().0 == pre.spec_history().0,
        cursor_of(post) == if cmd is DeleteCharBackward {
            prev_boundary(bytes_of(pre), cursor_of(pre) as int) as nat
        } else {
            cursor_of(pre)
        },
{
    let b = bytes_of(pre);
    let pos = cursor_of(pre) as int;
    match cmd {
        Command::InsertChar(_) => lemma_boundary_in_range(b, pos),
        Command::InsertNewline => lemma_boundary_in_range(b, pos),
        Command::Paste => lemma_boundary_in_range(b, pos),
        Command::DeleteCharBackward => {
            lemma_boundary_in_range(b, pos);
            law_prev_boundary_one_char(b, pos);
        },
        _ => {},
    }
    assert(mid.spec_history().0.drop_last() =~= pre.spec_history().0);
}

/// Backspace deletes the character to the left of the cursor: the text
/// before the cursor loses its last character and the cursor moves back
/// over it, while the text after the cursor stays as it was.
pub proof fn law_backspace_deletes_one_char(pre: Editor, post: Editor, eff: Effect)
    requires
        can_execute(pre, Command::DeleteCharBackward),
        executed(pre, post, Command::DeleteCharBackward, eff),
        cursor_of(pre) > 0,
    ensures
        decode_utf8(bytes_of(post).subrange(0, cursor_of(post) as int))
            == decode_utf8(bytes_of(pre).subrange(0, cursor_of(pre) as int)).drop_last(),
        bytes_of(post).subrange(cursor_of(post) as int, bytes_of(post).len() as int)
            == bytes_of(pre).subrange(cursor_of(pre) as int, bytes_of(pre).len() as int),
{
    let b = bytes_of(pre);
    let pos = cursor_of(pre) as int;
    lemma_boundary_in_range(b, pos);
    law_prev_boundary_one_char(b, pos);
    let q = prev_boundary(b, pos);
    let a = bytes_of(post);
    assert(a.subrange(0, q) =~= b.subrange(0, q));
    assert(a.subrange(q, a.len() as int) =~= b.subrange(pos, b.len() as int));
}

/// `x` deletes the character under the cursor: the text from the cursor on
/// loses its first character, while the cursor and the text before it stay.
pub proof fn law_delete_forward_deletes_one_char(pre: Editor, post: Editor, eff: Effect)
    requires
        can_execute(pre, Command::DeleteCharForward),
        executed(pre, post, Command::DeleteCharForward, eff),
        cursor_of(pre) < bytes_of(pre).len(),
    ensures
        cursor_of(post) == cursor_of(pre),
        bytes_of(post).subrange(0, cursor_of(post) as int) == bytes_of(pre).subrange(0, cursor_of(pre) as int),
        decode_utf8(bytes_of(post).subrange(cursor_of(post) as int, bytes_of(post).len() as int))
            == decode_utf8(bytes_of(pre).subrange(cursor_of(pre) as int, bytes_of(pre).len() as int)).drop_first(),
{
    let b = bytes_of(pre);
    let pos = cursor_of(pre) as int;
    law_next_boundary_one_char(b, pos);
    let r = next_boundary(b, pos);
    let a = bytes_of(post);
    assert(a.subrange(0, pos) =~= b.subrange(0, pos));
    assert(a.subrange(pos, a.len() as int) =~= b.subrange(r, b.len() as int));
}

/// Redoing right after undoing an edit gives back the text as the edit
/// left it.
pub proof fn law_redo_reapplies_edit(
    pre: Editor,
    mid: Editor,
    undone: Editor,
    post: Editor,
    cmd: Command,
    e1: Effect,
    e2: Effect,
    e3: Effect,
)
    requires
        changes_text(pre, cmd),
        can_execute(pre, cmd),
        executed(pre, mid, cmd, e1),
        executed(mid, undone, Command::Undo, e2),
        executed(undone, post, Command::Redo, e3),
    ensures
        post.spec_buffer().spec_rope() == mid.spec_buffer().spec_rope(),
        post.spec_history() == mid.spec_history(),
{
    let h = mid.spec_history();
    crate::undo::law_redo_after_undo(h);
}

/// Counting line feeds one character further.
proof fn lemma_newlines_step(t: Seq<char>, i: int)
    requires
        0 <= i < t.len(),
    ensures
        newline_count(t.take(i + 1)) == newline_count(t.take(i)) + if t[i] == '\n' { 1nat } else { 0nat },
{
    assert(t.take(i + 1).drop_last() =~= t.take(i));
}

/// No line feed lies in `a..b`, so as many lie before `b` as before `a`.
proof fn lemma_newlines_flat(t: Seq<char>, a: int, b: int)
    requires
        0 <= a <= b <= t.len(),
        forall|j: int| a <= j < b ==> t[j] != '\n',
    ensures
        newline_count(t.take(b)) == newline_count(t.take(a)),
    decreases b - a,
{
    if b > a {
        lemma_newlines_flat(t, a, b - 1);
        lemma_newlines_step(t, b - 1);
    }
}

/// There are no fewer line feeds before `b` than before `a <= b`.
proof fn lemma_newlines_mono(t: Seq<char>, a: int, b: int)
    requires
        0 <= a <= b <= t.len(),
    ensures
        newline_count(t.take(a)) <= newline_count(t.take(b)),
    decreases b - a,
{
    if b > a {
        lemma_newlines_mono(t, a, b - 1);
        lemma_newlines_step(t, b - 1);
    }
}

/// The line that starts at `s` runs to its line feed, or to the end.
proof fn lemma_line_end(t: Seq<char>, s: int)
    requires
        0 <= s <= t.len(),
    ensures
        s <= line_end(t, s) <= t.len(),
        forall|j: int| s <= j < line_end(t, s) ==> t[j] != '\n',
        line_end(t, s) < t.len() ==> t[line_end(t, s)] == '\n',
    decreases t.len() - s,
{
    if s < t.len() && t[s] != '\n' {
        lemma_line_end(t, s + 1);
    }
}

/// The line holding character `i` starts at the start of the text or just
/// after a line feed, with none between there and `i`.
proof fn lemma_line_start(t: Seq<char>, i: int)
    requires
        0 <= i <= t.len(),
    ensures
        0 <= line_start(t, i) <= i,
        line_start(t, i) == 0 || t[line_start(t, i) - 1] == '\n',
        forall|j: int| line_start(t, i) <= j < i ==> t[j] != '\n',
        newline_count(t.take(line_start(t, i))) == newline_count(t.take(i)),
        line_end(t, line_start(t, i)) >= i,
    decreases i,
{
    if i > 0 && t[i - 1] != '\n' {
        lemma_line_start(t, i - 1);
    }
    let s = line_start(t, i);
    lemma_newlines_flat(t, s, i);
    lemma_line_end(t, s);
}

/// A start of a line: the start of the text, or just after a line feed.
spec fn starts_line(t: Seq<char>, s: int) -> bool {
    0 <= s <= t.len() && (s == 0 || t[s - 1] == '\n')
}

proof fn lemma_start_up(t: Seq<char>, s: int, n: nat)
    requires
        starts_line(t, s),
    ensures
        starts_line(t, start_up(t, s, n)),
        start_up(t, s, n) <= s,
        newline_count(t.take(start_up(t, s, n))) == if newline_count(t.take(s)) >= n {
            newline_count(t.take(s)) - n
        } else {
            0
        },
    decreases n,
{
    if s == 0 {
        assert(t.take(0) =~= Seq::<char>::empty());
    }
    if n > 0 && s > 0 {
        lemma_line_start(t, s - 1);
        lemma_newlines_step(t, s - 1);
        lemma_start_up(t, line_start(t, s - 1), (n - 1) as nat);
    }
}

proof fn lemma_start_down(t: Seq<char>, s: int, n: nat)
    requires
        starts_line(t, s),
    ensures
        starts_line(t, start_down(t, s, n)),
        start_down(t, s, n) >= s,
        newline_count(t.take(start_down(t, s, n))) == if newline_count(t.take(s)) + n <= newline_count(t) {
            newline_count(t.take(s)) + n
        } else {
            newline_count(t)
        },
    decreases n,
{
    let e = line_end(t, s);
    lemma_line_end(t, s);
    assert(t.take(t.len() as int) =~= t);
    lemma_newlines_mono(t, s, t.len() as int);
    if e >= t.len() {
        lemma_newlines_flat(t, s, t.len() as int);
    } else if n > 0 {
        lemma_newlines_flat(t, s, e);
        lemma_newlines_step(t, e);
        lemma_start_down(t, e + 1, (n - 1) as nat);
    }
}

/// Up and down move by whole lines: `n` lines up from character `c`, but
/// not above the first line, or `n` lines down, but not below the last;
/// the character reached lies in that line.
pub proof fn law_vertical_lines(t: Seq<char>, c: int, up: bool, n: nat)
    requires
        0 <= c <= t.len(),
    ensures
        0 <= vertical_index(t, c, up, n) <= t.len(),
        newline_count(t.take(vertical_index(t, c, up, n))) == if up {
            if newline_count(t.take(c)) >= n { newline_count(t.take(c)) - n } else { 0 }
        } else {
            if newline_count(t.take(c)) + n <= newline_count(t) {
                (newline_count(t.take(c)) + n) as int
            } else {
                newline_count(t) as int
            }
        },
{
    lemma_line_start(t, c);
    let s = line_start(t, c);
    let target = if up { start_up(t, s, n) } else { start_down(t, s, n) };
    if up {
        lemma_start_up(t, s, n);
    } else {
        lemma_start_down(t, s, n);
    }
    lemma_line_end(t, target);
    let v = vertical_index(t, c, up, n);
    lemma_newlines_flat(t, target, v);
}

/// An arrow key moves the cursor within the text, onto a character
/// boundary. Left and right move it over `n` characters (from where it
/// settles), stopping at either end; up and down move it `n` lines,
/// stopping at the first or the last line.
pub proof fn law_arrows(pre: Editor, post: Editor, dir: Direction, n: usize, eff: Effect)
    requires
        can_execute(pre, Command::MoveCursor(dir, n)),
        executed(pre, post, Command::MoveCursor(dir, n), eff),
    ensures
        ({
            let t = pre.spec_buffer().spec_rope().text();
            let b = bytes_of(pre);
            let s = settled(b, cursor_of(pre) as int);
            let c = char_index(t, s);
            let l = line_of(b, s as nat);
            &&& cursor_of(post) <= b.len()
            &&& is_char_boundary(b, cursor_of(post) as int)
            &&& bytes_of(post) == b
            &&& dir == Direction::Left ==> char_index(t, cursor_of(post) as int) == if c >= n { c - n } else { 0 }
            &&& dir == Direction::Right ==> char_index(t, cursor_of(post) as int) == if c + n <= t.len() {
                c + n
            } else {
                t.len() as int
            }
            &&& dir == Direction::Up ==> line_of(b, cursor_of(post)) == if l >= n { l - n } else { 0 }
            &&& dir == Direction::Down ==> line_of(b, cursor_of(post)) == if l + n <= newline_count(t) {
                l + n
            } else {
                newline_count(t) as int
            }
        }),
{
    let t = pre.spec_buffer().spec_rope().text();
    let b = bytes_of(pre);
    let s = settled(b, cursor_of(pre) as int);
    lemma_settled(b, cursor_of(pre) as int);
    lemma_char_index(t, s);
    let c = char_index(t, s) as int;
    let k = match dir {
        Direction::Left => if c >= n { c - n } else { 0 },
        Direction::Right => if c + n <= t.len() { c + n } else { t.len() as int },
        Direction::Up => vertical_index(t, c, true, n as nat),
        Direction::Down => vertical_index(t, c, false, n as nat),
    };
    if dir == Direction::Up {
        law_vertical_lines(t, c, true, n as nat);
    } else if dir == Direction::Down {
        law_vertical_lines(t, c, false, n as nat);
    }
    lemma_byte_offset(t, k);
    let p = byte_offset(t, k) as int;
    assert(b.subrange(0, if p < b.len() { p } else { b.len() as int }) == b.subrange(0, p));
    assert(b.subrange(0, if s < b.len() { s } else { b.len() as int }) == b.subrange(0, s));
}

/// Copying (`y`) puts in the clipboard the line that holds the cursor:
/// line `k` of the text, where `k` is the number of line feeds before the
/// cursor (none when the cursor is past the last line); the buffer stays
/// as it was.
pub proof fn law_copy_takes_cursor_line(pre: Editor, post: Editor, eff: Effect)
    requires
        executed(pre, post, Command::Copy, eff),
    ensures
        ({
            let b = pre.spec_buffer().spec_rope()@;
            let t = pre.spec_buffer().spec_rope().text();
            let p = if cursor_of(pre) < b.len() { cursor_of(pre) as int } else { b.len() as int };
            let k = newline_count(decode_utf8(b.subrange(0, p)));
            &&& post.spec_clipboard() == if k < lines(t).len() { lines(t)[k as int] } else { Seq::empty() }
            &&& post.spec_buffer() == pre.spec_buffer()
            &&& post.spec_history() == pre.spec_history()
        }),
{
}

/// `:wq [file]` and `:x [file]` both save and quit: the buffer takes `file`
/// as its file when given; a write of the whole text to the buffer's file
/// is asked for, or with no file the message says so and nothing is
/// written; and the editor stops.
pub proof fn law_save_and_quit(pre: Editor, post: Editor, eff: Effect)
    requires
        executed(pre, post, Command::CommandExecute, eff),
        words(pre.spec_command_line()).len() > 0,
        words(pre.spec_command_line())[0] == "wq"@ || words(pre.spec_command_line())[0] == "x"@,
    ensures
        ({
            let w = words(pre.spec_command_line());
            let file = if w.len() > 1 { Some(w[1]) } else { pre.spec_buffer().spec_path() };
            &&& !post.spec_running()
            &&& post.spec_buffer().spec_rope() == pre.spec_buffer().spec_rope()
            &&& post.spec_buffer().spec_path() == file
            &&& match file {
                Some(f) => eff matches Effect::WriteFile { path, contents } && path@ == f
                    && contents@ == pre.spec_buffer().spec_rope().text(),
                None => eff is Nothing && post.spec_message()
                    == "error al guardar: "@ + "buffer sin archivo asociado"@,
            }
        }),
{
    reveal_strlit("w");
    reveal_strlit("q");
    reveal_strlit("wq");
    reveal_strlit("x");
    let line = pre.spec_command_line();
    let cmd = words(line)[0];
    assert(word(line, 0) == Some(cmd));
    assert("w"@.len() == 1 && "w"@[0] == 'w');
    assert("q"@.len() == 1 && "q"@[0] == 'q');
    assert("x"@.len() == 1 && "x"@[0] == 'x');
    assert("wq"@.len() == 2);
    assert(cmd != "w"@);
    assert(cmd != "q"@);
    assert(cmd == "wq"@ || cmd == "x"@);
    assert(command_line_run(pre, post, eff));
    assert(save_started(pre, post, word(line, 1), eff));
}

/// Undoing (`u`) with an edit to undo puts back the text from before the
/// most recent edit and the cursor where that edit was made (at most the
/// end of the text), whatever the cursor was, and moves the edit to the
/// redo side; with nothing to undo the buffer and history stay as they
/// were.
pub proof fn law_undo_restores_last_edit(pre: Editor, post: Editor, eff: Effect)
    requires
        executed(pre, post, Command::Undo, eff),
    ensures
        ({
            let h = pre.spec_history();
            if h.0.len() > 0 {
                let e = h.0.last();
                &&& post.spec_buffer().spec_rope() == e.before
                &&& cursor_of(post) == if e.position < e.before@.len() {
                    e.position as nat
                } else {
                    e.before@.len()
                }
                &&& post.spec_history() == (h.0.drop_last(), h.1.push(e))
            } else {
                &&& post.spec_buffer() == pre.spec_buffer()
                &&& post.spec_history() == h
            }
        }),
{
}

/// Switching to Command mode (`:`) starts with an empty command line,
/// whatever it held before.
pub proof fn law_command_mode_starts_empty(pre: Editor, post: Editor, eff: Effect)
    requires
        executed(pre, post, Command::SwitchMode(EditorMode::Command), eff),
    ensures
        post.spec_mode() == EditorMode::Command,
        post.spec_command_line() == Seq::<char>::empty(),
        post.spec_buffer() == pre.spec_buffer(),
{
}

/// A line feed takes one byte.
proof fn lemma_newline_len()
    ensures
        encode_utf8(seq!['\n']).len() == 1,
{
    assert(seq!['\n'].drop_first() =~= Seq::<char>::empty());
    assert(encode_utf8(seq!['\n']) == encode_scalar(seq!['\n'][0] as u32) + encode_utf8(Seq::<char>::empty()));
    assert(('\n' as u32) == 10);
    assert(has_width_1_encoding(10));
}

/// A single character takes one to four bytes.
proof fn lemma_char_len(c: char)
    ensures
        1 <= encode_utf8(seq![c]).len() <= 4,
{
    assert(seq![c].drop_first() =~= Seq::<char>::empty());
    assert(encode_utf8(seq![c]) == encode_scalar(seq![c][0] as u32) + encode_utf8(Seq::<char>::empty()));
}

} // verus!

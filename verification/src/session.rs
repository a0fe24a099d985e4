//! The state behind the graphical editor: a text edited as a whole by a
//! text widget, snapshots of it kept in the undo history, and the file it
//! is saved to. Windows, widgets and files stay outside the library.

use vstd::prelude::*;
use vstd::utf8::encode_utf8;

use crate::rope::Rope;
use crate::text::{chars_of, lowercase, occurs, occurs_in, to_lowercase, utf8_len};
use crate::undo::{push_step, redo_step, undo_step, Edit, EditKind, History, UndoStack};

verus! {

/// The graphical editor's state.
pub struct EditorApp {
    // The live text that the text widget edits.
    text: String,
    // The text as of the last snapshot, to tell when it has changed.
    last_snapshot: String,
    undo_stack: UndoStack,
    file_path_input: String,
    current_file: Option<String>,
    dirty: bool,
    status: String,
}

impl EditorApp {
    #[verifier::type_invariant]
    spec fn inv(&self) -> bool {
        &&& encode_utf8(self.text@).len() <= usize::MAX
        &&& encode_utf8(self.last_snapshot@).len() <= usize::MAX
    }

    /// The live text.
    pub closed spec fn spec_text(&self) -> Seq<char> {
        self.text@
    }

    /// The text as of the last snapshot.
    pub closed spec fn spec_snapshot(&self) -> Seq<char> {
        self.last_snapshot@
    }

    pub closed spec fn spec_history(&self) -> History {
        self.undo_stack@
    }

    /// What is typed in the file name field.
    pub closed spec fn spec_path_input(&self) -> Seq<char> {
        self.file_path_input@
    }

    /// The file the text was opened from or saved to.
    pub closed spec fn spec_file(&self) -> Option<Seq<char>> {
        match self.current_file {
            Some(p) => Some(p@),
            None => None,
        }
    }

    /// Whether there are changes not yet saved.
    pub closed spec fn spec_dirty(&self) -> bool {
        self.dirty
    }

    /// The status shown at the bottom of the window.
    pub closed spec fn spec_status(&self) -> Seq<char> {
        self.status@
    }
}

/// `post` is `pre` after taking in the outcome of reading the file at
/// `path`, whose last component is `name` when it has one.
pub open spec fn opened(
    pre: EditorApp,
    post: EditorApp,
    path: Seq<char>,
    name: Option<Seq<char>>,
    outcome: Result<String, String>,
) -> bool {
    &&& post.spec_history() == pre.spec_history()
    &&& match outcome {
        Ok(content) => {
            &&& post.spec_text() == content@
            &&& post.spec_snapshot() == content@
            &&& post.spec_path_input() == match name {
                Some(n) => n,
                None => pre.spec_path_input(),
            }
            &&& post.spec_file() == Some(path)
            &&& !post.spec_dirty()
            &&& post.spec_status() == "Archivo abierto"@
        },
        Err(e) => {
            &&& post.spec_text() == pre.spec_text()
            &&& post.spec_snapshot() == pre.spec_snapshot()
            &&& post.spec_path_input() == pre.spec_path_input()
            &&& post.spec_file() == pre.spec_file()
            &&& post.spec_dirty() == pre.spec_dirty()
            &&& post.spec_status() == "Error al abrir: "@ + e@
        },
    }
}

/// The characters of `p` after its last `/` (all of `p` when it has none).
pub open spec fn after_last_slash(p: Seq<char>) -> Seq<char>
    decreases p.len(),
{
    if p.len() == 0 || p.last() == '/' {
        Seq::empty()
    } else {
        after_last_slash(p.drop_last()).push(p.last())
    }
}

/// The last component of `p` with `/` as the separator, as the std
/// documentation of `Path::components` and `Path::file_name` describes it:
/// of the pieces between slashes, empty ones and `.` are passed over, and
/// the last piece left is the name, unless it is `..` or there is none.
pub open spec fn last_component(p: Seq<char>) -> Option<Seq<char>>
    decreases p.len(),
{
    if p.len() == 0 {
        None
    } else if p.last() == '/' {
        last_component(p.drop_last())
    } else if after_last_slash(p) == seq!['.'] {
        last_component(p.drop_last())
    } else if after_last_slash(p) == seq!['.', '.'] {
        None
    } else {
        Some(after_last_slash(p))
    }
}

/// A path that every platform splits at `/` alone: it holds no `\` and no
/// `:`, and does not start with `//`, so that there is no Windows prefix.
pub open spec fn ordinary_path(p: Seq<char>) -> bool {
    &&& !p.contains('\\')
    &&& !p.contains(':')
    &&& !(p.len() >= 2 && p[0] == '/' && p[1] == '/')
}

/// What holds, on every platform, of the last component `name` that
/// `Path::file_name` finds in `path`: it is a non-empty piece of `path`,
/// free of `/` unless `path` holds a `\`; and for an ordinary path it is
/// the last component.
pub open spec fn file_name_facts(path: Seq<char>, name: Option<Seq<char>>) -> bool {
    &&& name matches Some(n) ==> {
        &&& n.len() > 0
        &&& exists|i: int| 0 <= i && i + n.len() <= path.len() && #[trigger] path.subrange(i, i + n.len()) == n
        &&& !path.contains('\\') ==> !n.contains('/')
    }
    &&& ordinary_path(path) ==> name == last_component(path)
}

/// `Path::file_name` on `path`, as text. What counts as a separator and a
/// prefix differs between platforms (`\`, `C:` and `//server/share` on
/// Windows), so for other than ordinary paths only what holds on every
/// platform is stated.
#[verifier::external_body]
fn file_name_of(path: &str) -> (res: Option<String>)
    ensures
        file_name_facts(path@, match res {
            Some(n) => Some(n@),
            None => None,
        }),
{
    match std::path::Path::new(path).file_name() {
        Some(n) => n.to_str().map(|t| t.to_string()),
        None => None,
    }
}

/// `app` with its snapshot taken: when the text differs from the last
/// snapshot, a replacement of the one by the other has been recorded.
pub open spec fn snapshot_taken(pre: EditorApp, post: EditorApp) -> bool {
    &&& post.spec_text() == pre.spec_text()
    &&& post.spec_snapshot() == pre.spec_text()
    &&& post.spec_path_input() == pre.spec_path_input()
    &&& post.spec_file() == pre.spec_file()
    &&& post.spec_status() == pre.spec_status()
    &&& if pre.spec_text() != pre.spec_snapshot() {
        &&& post.spec_dirty()
        &&& recorded_replacement(pre.spec_history(), post.spec_history(), pre.spec_snapshot(), pre.spec_text())
    } else {
        &&& post.spec_dirty() == pre.spec_dirty()
        &&& post.spec_history() == pre.spec_history()
    }
}

/// `post` is `pre` with one more edit recorded: a replacement at 0 of the
/// text `before` by `after`.
pub open spec fn recorded_replacement(pre: History, post: History, before: Seq<char>, after: Seq<char>) -> bool {
    &&& post.0.len() == pre.0.len() + 1
    &&& post == push_step(pre, post.0.last())
    &&& post.0.last().kind == EditKind::Replace
    &&& post.0.last().position == 0
    &&& post.0.last().before.text() == before
    &&& post.0.last().after.text() == after
}

/// What `undo` does: a snapshot, then a step back in the history whose
/// text (before the undone change) becomes the live text.
pub open spec fn undone(pre: EditorApp, post: EditorApp) -> bool {
    exists|mid: EditorApp| #[trigger] snapshot_taken(pre, mid) && match undo_step(mid.spec_history()) {
        (h, Some(e)) => {
            &&& post.spec_history() == h
            &&& post.spec_text() == e.before.text()
            &&& post.spec_snapshot() == e.before.text()
            &&& post.spec_dirty() == mid.spec_dirty()
            &&& post.spec_path_input() == mid.spec_path_input()
            &&& post.spec_file() == mid.spec_file()
            &&& post.spec_status() == "Deshecho"@
        },
        (_, None) => {
            &&& post.spec_history() == mid.spec_history()
            &&& post.spec_text() == mid.spec_text()
            &&& post.spec_snapshot() == mid.spec_snapshot()
            &&& post.spec_dirty() == mid.spec_dirty()
            &&& post.spec_path_input() == mid.spec_path_input()
            &&& post.spec_file() == mid.spec_file()
            &&& post.spec_status() == "Nada para deshacer"@
        },
    }
}

/// What `redo` does: a step forward in the history whose text (after the
/// redone change) becomes the live text.
pub open spec fn redone(pre: EditorApp, post: EditorApp) -> bool {
    match redo_step(pre.spec_history()) {
        (h, Some(e)) => {
            &&& post.spec_history() == h
            &&& post.spec_text() == e.after.text()
            &&& post.spec_snapshot() == e.after.text()
            &&& post.spec_dirty() == pre.spec_dirty()
            &&& post.spec_path_input() == pre.spec_path_input()
            &&& post.spec_file() == pre.spec_file()
            &&& post.spec_status() == "Rehecho"@
        },
        (_, None) => {
            &&& post.spec_history() == pre.spec_history()
            &&& post.spec_text() == pre.spec_text()
            &&& post.spec_snapshot() == pre.spec_snapshot()
            &&& post.spec_dirty() == pre.spec_dirty()
            &&& post.spec_path_input() == pre.spec_path_input()
            &&& post.spec_file() == pre.spec_file()
            &&& post.spec_status() == "Nada para rehacer"@
        },
    }
}

/// Undoing changes made since the last snapshot gives back the text as of
/// that snapshot.
pub proof fn law_undo_restores_snapshot(pre: EditorApp, post: EditorApp)
    requires
        undone(pre, post),
        pre.spec_text() != pre.spec_snapshot(),
    ensures
        post.spec_text() == pre.spec_snapshot(),
        post.spec_status() == "Deshecho"@,
{
}

/// Redoing right after undoing such changes gives back the text as it was
/// before the undo.
pub proof fn law_redo_after_undo_restores_text(pre: EditorApp, mid: EditorApp, post: EditorApp)
    requires
        undone(pre, mid),
        redone(mid, post),
        pre.spec_text() != pre.spec_snapshot(),
    ensures
        post.spec_text() == pre.spec_text(),
        post.spec_status() == "Rehecho"@,
{
}

impl Default for EditorApp {
    /// An empty text, nothing to undo, no file, and "Listo" as status.
    fn default() -> (res: Self)
        ensures
            res.spec_text() == Seq::<char>::empty(),
            res.spec_snapshot() == Seq::<char>::empty(),
            res.spec_history() == (Seq::<Edit>::empty(), Seq::<Edit>::empty()),
            res.spec_path_input() == Seq::<char>::empty(),
            res.spec_file() == None::<Seq<char>>,
            !res.spec_dirty(),
            res.spec_status() == "Listo"@,
    {
        let text = String::new();
        let last_snapshot = String::new();
        assert(encode_utf8(text@) =~= Seq::<u8>::empty());
        EditorApp {
            text,
            last_snapshot,
            undo_stack: UndoStack::new(),
            file_path_input: String::new(),
            current_file: None,
            dirty: false,
            status: String::from_str("Listo"),
        }
    }
}

impl EditorApp {
    /// The live text.
    pub fn text(&self) -> (res: &str)
        ensures
            res@ == self.spec_text(),
    {
        self.text.as_str()
    }

    /// The status message.
    pub fn status(&self) -> (res: &str)
        ensures
            res@ == self.spec_status(),
    {
        self.status.as_str()
    }

    /// Whether there are changes not yet saved.
    pub fn is_dirty(&self) -> (res: bool)
        ensures
            res == self.spec_dirty(),
    {
        self.dirty
    }

    /// The file the text belongs to, if any.
    pub fn current_file(&self) -> (res: Option<&str>)
        ensures
            match res {
                Some(p) => self.spec_file() == Some(p@),
                None => self.spec_file() is None,
            },
    {
        match &self.current_file {
            Some(p) => Some(p.as_str()),
            None => None,
        }
    }

    /// The text widget changed the text: it is now `text`, and the buffer
    /// counts as modified.
    pub fn edit_text(&mut self, text: String)
        ensures
            final(self).spec_text() == text@,
            final(self).spec_dirty(),
            final(self).spec_snapshot() == old(self).spec_snapshot(),
            final(self).spec_history() == old(self).spec_history(),
            final(self).spec_path_input() == old(self).spec_path_input(),
            final(self).spec_file() == old(self).spec_file(),
            final(self).spec_status() == old(self).spec_status(),
    {
        proof { use_type_invariant(&*self); }
        // Only for its bound: a `str`'s encoding fits in a `usize`.
        let _ = utf8_len(text.as_str());
        self.text = text;
        self.dirty = true;
    }

    /// The file name field now holds `input`.
    pub fn set_file_path_input(&mut self, input: String)
        ensures
            final(self).spec_path_input() == input@,
            final(self).spec_text() == old(self).spec_text(),
            final(self).spec_snapshot() == old(self).spec_snapshot(),
            final(self).spec_history() == old(self).spec_history(),
            final(self).spec_file() == old(self).spec_file(),
            final(self).spec_dirty() == old(self).spec_dirty(),
            final(self).spec_status() == old(self).spec_status(),
    {
        proof { use_type_invariant(&*self); }
        self.file_path_input = input;
    }

    /// When the text has changed since the last snapshot, records the
    /// change (the rope before and after) in the undo history.
    pub fn snapshot_if_changed(&mut self)
        ensures
            snapshot_taken(*old(self), *final(self)),
    {
        proof { use_type_invariant(&*self); }
        if self.text != self.last_snapshot {
            let before = Rope::new(self.last_snapshot.as_str());
            let after = Rope::new(self.text.as_str());
            let mut stack = UndoStack::new();
            std::mem::swap(&mut stack, &mut self.undo_stack);
            stack.push(Edit { kind: EditKind::Replace, position: 0, before, after });
            self.undo_stack = stack;
            self.last_snapshot = self.text.clone();
            self.dirty = true;
        }
    }

    /// Takes a snapshot, then goes back to the text before the most recent
    /// change; the status says whether there was anything to undo.
    pub fn undo(&mut self)
        ensures
            undone(*old(self), *final(self)),
    {
        self.snapshot_if_changed();
        proof { use_type_invariant(&*self); }
        let ghost mid = *self;
        let mut stack = UndoStack::new();
        std::mem::swap(&mut stack, &mut self.undo_stack);
        let undone = stack.undo();
        self.undo_stack = stack;
        match undone {
            Some(edit) => {
                let t = edit.before.to_string();
                self.text = t;
                self.last_snapshot = self.text.clone();
                self.status = String::from_str("Deshecho");
                assert(snapshot_taken(*old(self), mid));
            },
            None => {
                self.status = String::from_str("Nada para deshacer");
                assert(snapshot_taken(*old(self), mid));
            },
        }
    }

    /// Goes forward again to the text of the most recently undone change;
    /// the status says whether there was anything to redo.
    pub fn redo(&mut self)
        ensures
            redone(*old(self), *final(self)),
    {
        proof { use_type_invariant(&*self); }
        let mut stack = UndoStack::new();
        std::mem::swap(&mut stack, &mut self.undo_stack);
        let redone = stack.redo();
        self.undo_stack = stack;
        match redone {
            Some(edit) => {
                self.text = edit.after.to_string();
                self.last_snapshot = self.text.clone();
                self.status = String::from_str("Rehecho");
            },
            None => {
                self.status = String::from_str("Nada para rehacer");
            },
        }
    }

    /// The file that opening reads: the one named in the file name field.
    pub fn open(&self) -> (res: String)
        ensures
            res@ == self.spec_path_input(),
    {
        self.file_path_input.clone()
    }

    /// Takes in the outcome of reading the file at `path`, whose last
    /// component `file_name` is, when it has one: on success its content
    /// becomes the text (with nothing to snapshot), the file name field shows
    /// the name and the text belongs to that file; on failure the status
    /// gives the error.
    pub fn open_with_name(&mut self, path: String, file_name: Option<String>, outcome: Result<String, String>)
        ensures
            opened(
                *old(self),
                *final(self),
                path@,
                match file_name {
                    Some(n) => Some(n@),
                    None => None,
                },
                outcome,
            ),
    {
        proof { use_type_invariant(&*self); }
        match outcome {
            Ok(content) => {
                // Only for its bound: a `str`'s encoding fits in a `usize`.
                let _ = utf8_len(content.as_str());
                self.text = content.clone();
                self.last_snapshot = content;
                if let Some(name) = file_name {
                    self.file_path_input = name;
                }
                self.current_file = Some(path);
                self.dirty = false;
                self.status = String::from_str("Archivo abierto");
            },
            Err(e) => {
                let mut m = String::from_str("Error al abrir: ");
                m.append(e.as_str());
                self.status = m;
            },
        }
    }

    /// Takes in the outcome of reading the file at `path`, as
    /// `open_with_name` does with the last component of `path`.
    pub fn finish_open(&mut self, path: String, outcome: Result<String, String>)
        ensures
            ordinary_path(path@) ==> opened(*old(self), *final(self), path@, last_component(path@), outcome),
            exists|name: Option<Seq<char>>|
                #[trigger] file_name_facts(path@, name) && opened(*old(self), *final(self), path@, name, outcome),
    {
        let name = file_name_of(path.as_str());
        self.open_with_name(path, name, outcome);
    }

    /// Takes a snapshot and picks the file that saving writes: the text's
    /// own file, or else the one named in the file name field. With neither
    /// there is nothing to write, and the status asks for a file name.
    pub fn save_target(&mut self) -> (res: Option<String>)
        ensures
            exists|mid: EditorApp| #[trigger] snapshot_taken(*old(self), mid) && {
                let path = match mid.spec_file() {
                    Some(p) => p,
                    None => mid.spec_path_input(),
                };
                &&& final(self).spec_text() == mid.spec_text()
                &&& final(self).spec_snapshot() == mid.spec_snapshot()
                &&& final(self).spec_history() == mid.spec_history()
                &&& final(self).spec_path_input() == mid.spec_path_input()
                &&& final(self).spec_file() == mid.spec_file()
                &&& final(self).spec_dirty() == mid.spec_dirty()
                &&& if path.len() == 0 {
                    &&& res is None
                    &&& final(self).spec_status() == "Escribí una ruta de archivo antes de guardar"@
                } else {
                    &&& res matches Some(p) && p@ == path
                    &&& final(self).spec_status() == mid.spec_status()
                }
            },
    {
        self.snapshot_if_changed();
        proof { use_type_invariant(&*self); }
        let ghost mid = *self;
        let path = match &self.current_file {
            Some(p) => p.clone(),
            None => self.file_path_input.clone(),
        };
        if path.as_str().is_empty() {
            self.status = String::from_str("Escribí una ruta de archivo antes de guardar");
            assert(snapshot_taken(*old(self), mid));
            return None;
        }
        assert(snapshot_taken(*old(self), mid));
        Some(path)
    }

    /// Takes in the outcome of writing the text to `path`: on success the
    /// text belongs to that file and counts as saved; on failure the status
    /// gives the error.
    pub fn finish_save(&mut self, path: String, outcome: Result<(), String>)
        ensures
            final(self).spec_text() == old(self).spec_text(),
            final(self).spec_snapshot() == old(self).spec_snapshot(),
            final(self).spec_history() == old(self).spec_history(),
            final(self).spec_path_input() == old(self).spec_path_input(),
            match outcome {
                Ok(()) => {
                    &&& final(self).spec_file() == Some(path@)
                    &&& !final(self).spec_dirty()
                    &&& final(self).spec_status() == "Guardado"@
                },
                Err(e) => {
                    &&& final(self).spec_file() == old(self).spec_file()
                    &&& final(self).spec_dirty() == old(self).spec_dirty()
                    &&& final(self).spec_status() == "Error al guardar: "@ + e@
                },
            },
    {
        proof { use_type_invariant(&*self); }
        match outcome {
            Ok(()) => {
                self.current_file = Some(path);
                self.dirty = false;
                self.status = String::from_str("Guardado");
            },
            Err(e) => {
                let mut m = String::from_str("Error al guardar: ");
                m.append(e.as_str());
                self.status = m;
            },
        }
    }
}

/// What a directory entry is, as far as the file picker cares.
#[derive(Clone, Copy, Debug, PartialEq, Eq, Structural)]
pub enum EntryKind {
    Directory,
    TextFile,
    Other,
}

/// Whether `a` comes no later than `b` in lexicographic byte order.
pub open spec fn bytes_le(a: Seq<u8>, b: Seq<u8>) -> bool
    decreases a.len(),
{
    if a.len() == 0 {
        true
    } else if b.len() == 0 {
        false
    } else if a[0] != b[0] {
        a[0] < b[0]
    } else {
        bytes_le(a.drop_first(), b.drop_first())
    }
}

/// Whether the names in `s` are in the order in which `String`s compare.
pub open spec fn names_sorted(s: Seq<Seq<char>>) -> bool {
    forall|i: int, j: int| 0 <= i < j < s.len() ==> bytes_le(encode_utf8(#[trigger] s[i]), encode_utf8(#[trigger] s[j]))
}

/// The names of the entries of kind `k`, in order.
pub open spec fn names_of(entries: Seq<(String, EntryKind)>, k: EntryKind) -> Seq<Seq<char>>
    decreases entries.len(),
{
    if entries.len() == 0 {
        Seq::empty()
    } else {
        let rest = names_of(entries.drop_last(), k);
        if entries.last().1 == k {
            rest.push(entries.last().0@)
        } else {
            rest
        }
    }
}

/// `slice::sort` on strings: puts the names in the order in which `String`s
/// compare, lexicographically by their bytes, keeping the same names.
#[verifier::external_body]
fn sort_names(v: &mut Vec<String>)
    ensures
        final(v)@.map_values(|s: String| s@).to_multiset() == old(v)@.map_values(|s: String| s@).to_multiset(),
        names_sorted(final(v)@.map_values(|s: String| s@)),
{
    v.sort()
}

impl EditorApp {
    /// The file picker's listing of a directory's entries: the names of its
    /// subdirectories and those of its text files, each sorted, apart.
    pub fn list_dir(entries: Vec<(String, EntryKind)>) -> (res: (Vec<String>, Vec<String>))
        ensures
            res.0@.map_values(|s: String| s@).to_multiset()
                == names_of(entries@, EntryKind::Directory).to_multiset(),
            names_sorted(res.0@.map_values(|s: String| s@)),
            res.1@.map_values(|s: String| s@).to_multiset()
                == names_of(entries@, EntryKind::TextFile).to_multiset(),
            names_sorted(res.1@.map_values(|s: String| s@)),
    {
        let mut dirs: Vec<String> = Vec::new();
        let mut files: Vec<String> = Vec::new();
        let mut i: usize = 0;
        while i < entries.len()
            invariant
                i <= entries@.len(),
                dirs@.map_values(|s: String| s@) == names_of(entries@.take(i as int), EntryKind::Directory),
                files@.map_values(|s: String| s@) == names_of(entries@.take(i as int), EntryKind::TextFile),
            decreases entries@.len() - i,
        {
            assert(entries@.take(i + 1).drop_last() =~= entries@.take(i as int));
            assert(entries@.take(i + 1).last() == entries@[i as int]);
            let (name, kind) = &entries[i];
            match kind {
                EntryKind::Directory => {
                    dirs.push(name.clone());
                },
                EntryKind::TextFile => {
                    files.push(name.clone());
                },
                EntryKind::Other => {},
            }
            assert(dirs@.map_values(|s: String| s@) =~= names_of(entries@.take(i + 1), EntryKind::Directory));
            assert(files@.map_values(|s: String| s@) =~= names_of(entries@.take(i + 1), EntryKind::TextFile));
            i = i + 1;
        }
        assert(entries@.take(i as int) =~= entries@);
        sort_names(&mut dirs);
        sort_names(&mut files);
        (dirs, files)
    }
}

/// Whether the first bytes of a file look like text, by the rule Git uses:
/// there is no zero byte among them.
pub fn looks_like_text(bytes: &[u8]) -> (res: bool)
    ensures
        res == !bytes@.contains(0u8),
{
    let mut i: usize = 0;
    while i < bytes.len()
        invariant
            i <= bytes@.len(),
            forall|k: int| 0 <= k < i ==> bytes@[k] != 0u8,
        decreases bytes@.len() - i,
    {
        if bytes[i] == 0u8 {
            assert(bytes@[i as int] == 0u8);
            return false;
        }
        i = i + 1;
    }
    true
}

/// Whether a kernel version text, already in lowercase, names WSL: it
/// mentions `microsoft` or `wsl`.
pub fn names_wsl(lower: &str) -> (res: bool)
    ensures
        res == (occurs_in("microsoft"@, lower@) || occurs_in("wsl"@, lower@)),
{
    let text = chars_of(lower);
    let microsoft = chars_of("microsoft");
    let wsl = chars_of("wsl");
    occurs(&microsoft, &text) || occurs(&wsl, &text)
}

/// Whether a kernel version text names WSL, in upper or lower case: once
/// in lowercase, it mentions `microsoft` or `wsl`. The graphical editor
/// asks this of `/proc/version` to choose software rendering under WSL.
pub fn version_is_wsl(version: &str) -> (res: bool)
    ensures
        res == (occurs_in("microsoft"@, lowercase(version@)) || occurs_in("wsl"@, lowercase(version@))),
{
    let lower = to_lowercase(version);
    names_wsl(lower.as_str())
}

} // verus!

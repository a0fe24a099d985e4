//! The undo history: edits that can be undone, and those undone that can
//! be redone.

use vstd::prelude::*;

use crate::rope::Rope;

verus! {

/// What an edit did to the text.
#[derive(Clone, Copy, Debug)]
pub enum EditKind {
    Insert,
    Delete,
    Replace,
}

/// One recorded edit: the text before and after it, and where it was made.
pub struct Edit {
    pub kind: EditKind,
    pub position: usize,
    pub before: Rope,
    pub after: Rope,
}

/// The abstract state of an undo history: the edits that can be undone
/// (most recent last) and the edits that can be redone (next last).
pub type History = (Seq<Edit>, Seq<Edit>);

/// Recording `e` makes it the next edit to undo and forgets what could be
/// redone.
pub open spec fn push_step(h: History, e: Edit) -> History {
    (h.0.push(e), Seq::empty())
}

/// Undoing hands out the most recent edit and moves it to the redo side;
/// with nothing to undo, nothing changes.
pub open spec fn undo_step(h: History) -> (History, Option<Edit>) {
    if h.0.len() == 0 {
        (h, None)
    } else {
        ((h.0.drop_last(), h.1.push(h.0.last())), Some(h.0.last()))
    }
}

/// Redoing hands out the most recently undone edit and moves it back to
/// the undo side; with nothing to redo, nothing changes.
pub open spec fn redo_step(h: History) -> (History, Option<Edit>) {
    if h.1.len() == 0 {
        (h, None)
    } else {
        ((h.0.push(h.1.last()), h.1.drop_last()), Some(h.1.last()))
    }
}

/// Two stacks of edits: one to undo, one to redo.
pub struct UndoStack {
    stack: Vec<Edit>,
    redo_stack: Vec<Edit>,
}

impl View for UndoStack {
    type V = History;

    closed spec fn view(&self) -> History {
        (self.stack@, self.redo_stack@)
    }
}

impl Edit {
    /// A copy of the edit, sharing its ropes.
    fn duplicate(&self) -> (res: Edit)
        ensures
            res == *self,
    {
        Edit {
            kind: self.kind,
            position: self.position,
            before: self.before.clone(),
            after: self.after.clone(),
        }
    }
}

impl UndoStack {
    /// An empty history.
    pub fn new() -> (res: Self)
        ensures
            res@ == (Seq::<Edit>::empty(), Seq::<Edit>::empty()),
    {
        UndoStack { stack: Vec::new(), redo_stack: Vec::new() }
    }

    /// Records an edit; what could be redone is forgotten.
    pub fn push(&mut self, edit: Edit)
        ensures
            final(self)@ == push_step(old(self)@, edit),
    {
        self.stack.push(edit);
        self.redo_stack.clear();
    }

    /// Takes back the most recent edit, keeping it for `redo`.
    pub fn undo(&mut self) -> (res: Option<Edit>)
        ensures
            (final(self)@, res) == undo_step(old(self)@),
    {
        match self.stack.pop() {
            None => None,
            Some(edit) => {
                self.redo_stack.push(edit.duplicate());
                Some(edit)
            },
        }
    }

    /// Applies again the most recently undone edit, keeping it for `undo`.
    pub fn redo(&mut self) -> (res: Option<Edit>)
        ensures
            (final(self)@, res) == redo_step(old(self)@),
    {
        match self.redo_stack.pop() {
            None => None,
            Some(edit) => {
                self.stack.push(edit.duplicate());
                Some(edit)
            },
        }
    }
}

/// Undoing right after recording an edit hands that edit back, and leaves
/// it as the only one to redo.
pub proof fn law_undo_after_push(h: History, e: Edit)
    ensures
        undo_step(push_step(h, e)) == ((h.0, seq![e]), Some(e)),
{
    assert(push_step(h, e).0.drop_last() =~= h.0);
    assert(Seq::<Edit>::empty().push(e) =~= seq![e]);
}

/// Redoing right after an undo restores the history and hands back the
/// same edit.
pub proof fn law_redo_after_undo(h: History)
    requires
        h.0.len() > 0,
    ensures
        redo_step(undo_step(h).0) == (h, Some(h.0.last())),
{
    let u = undo_step(h).0;
    assert(u.1.drop_last() =~= h.1);
    assert(u.0.push(h.0.last()) =~= h.0);
}

/// Undoing right after a redo restores the history and hands back the
/// same edit.
pub proof fn law_undo_after_redo(h: History)
    requires
        h.1.len() > 0,
    ensures
        undo_step(redo_step(h).0) == (h, Some(h.1.last())),
{
    let r = redo_step(h).0;
    assert(r.0.drop_last() =~= h.0);
    assert(r.1.push(h.1.last()) =~= h.1);
}

/// After recording an edit there is nothing to redo.
pub proof fn law_nothing_to_redo_after_push(h: History, e: Edit)
    ensures
        redo_step(push_step(h, e)).1 == None::<Edit>,
        redo_step(push_step(h, e)).0 == push_step(h, e),
{
}

/// Undoing every edit one by one and then redoing them all gives back the
/// history as it was.
pub proof fn law_undo_all_redo_all(h: History, n: nat)
    requires
        n <= h.0.len(),
    ensures
        redo_times(undo_times(h, n), n) == h,
    decreases n,
{
    if n > 0 {
        law_redo_after_undo(h);
        let u = undo_step(h).0;
        law_undo_all_redo_all(u, (n - 1) as nat);
        lemma_redo_times_last(undo_times(u, (n - 1) as nat), (n - 1) as nat);
    }
}

/// The history after `n` undos.
pub open spec fn undo_times(h: History, n: nat) -> History
    decreases n,
{
    if n == 0 {
        h
    } else {
        undo_times(undo_step(h).0, (n - 1) as nat)
    }
}

/// The history after `n` redos.
pub open spec fn redo_times(h: History, n: nat) -> History
    decreases n,
{
    if n == 0 {
        h
    } else {
        redo_times(redo_step(h).0, (n - 1) as nat)
    }
}

proof fn lemma_redo_times_last(h: History, n: nat)
    ensures
        redo_times(h, n + 1) == redo_step(redo_times(h, n)).0,
    decreases n,
{
    if n == 0 {
        assert(redo_times(redo_step(h).0, 0) == redo_step(h).0);
    } else {
        lemma_redo_times_last(redo_step(h).0, (n - 1) as nat);
    }
}

} // verus!

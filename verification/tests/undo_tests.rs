use rope_editor::rope::Rope;
use rope_editor::undo::{Edit, EditKind, UndoStack};

fn edit(pos: usize, before: &str, after: &str) -> Edit {
    Edit { kind: EditKind::Insert, position: pos, before: Rope::new(before), after: Rope::new(after) }
}

#[test]
fn undo_on_empty_history_gives_nothing() {
    let mut u = UndoStack::new();
    assert!(u.undo().is_none());
    assert!(u.redo().is_none());
}

#[test]
fn undo_after_push_gives_the_edit() {
    let mut u = UndoStack::new();
    u.push(edit(0, "", "a"));
    u.push(edit(1, "a", "ab"));
    let e = u.undo().unwrap();
    assert_eq!(e.position, 1);
    assert_eq!(e.before.to_string(), "a");
    assert_eq!(e.after.to_string(), "ab");
    let e = u.undo().unwrap();
    assert_eq!(e.position, 0);
    assert!(u.undo().is_none());
}

#[test]
fn redo_after_undo_gives_the_same_edit() {
    let mut u = UndoStack::new();
    u.push(edit(0, "", "a"));
    let e = u.undo().unwrap();
    let r = u.redo().unwrap();
    assert_eq!(e.after.to_string(), r.after.to_string());
    assert_eq!(r.position, 0);
    assert!(u.redo().is_none());
    let again = u.undo().unwrap();
    assert_eq!(again.after.to_string(), "a");
}

#[test]
fn push_forgets_what_could_be_redone() {
    let mut u = UndoStack::new();
    u.push(edit(0, "", "a"));
    u.undo().unwrap();
    u.push(edit(0, "", "b"));
    assert!(u.redo().is_none());
    assert_eq!(u.undo().unwrap().after.to_string(), "b");
    assert!(u.undo().is_none());
}

#[test]
fn undo_all_then_redo_all() {
    let mut u = UndoStack::new();
    u.push(edit(0, "", "a"));
    u.push(edit(1, "a", "ab"));
    u.push(edit(2, "ab", "abc"));
    for _ in 0..3 {
        u.undo().unwrap();
    }
    assert!(u.undo().is_none());
    let mut afters = Vec::new();
    for _ in 0..3 {
        afters.push(u.redo().unwrap().after.to_string());
    }
    assert_eq!(afters, vec!["a", "ab", "abc"]);
    assert!(u.redo().is_none());
    assert_eq!(u.undo().unwrap().after.to_string(), "abc");
}

use rope_editor::buffer::Buffer;
use rope_editor::clipboard::Clipboard;
use rope_editor::config::Config;
use rope_editor::rope::Rope;
use rope_editor::style::{Color, Style, Theme};
use rope_editor::viewport::Viewport;

#[test]
fn new_buffer_is_empty_and_clean() {
    let b = Buffer::new();
    assert_eq!(b.rope().to_string(), "");
    assert!(b.file_path().is_none());
    assert!(!b.is_modified());
    assert_eq!(b.cursor(), 0);
    assert_eq!(b.line_count(), 1);
    assert_eq!(b.line(0), "");
}

#[test]
fn insert_and_delete_mark_modified() {
    let mut b = Buffer::new();
    b.insert(0, "hola");
    assert!(b.is_modified());
    assert_eq!(b.rope().to_string(), "hola");
    b.delete(1, 3);
    assert_eq!(b.rope().to_string(), "ha");
    b.mark_saved();
    b.delete(2, 2);
    assert!(!b.is_modified());
    b.delete(2, 1);
    assert!(!b.is_modified());
    assert_eq!(b.rope().to_string(), "ha");
}

#[test]
fn lines_follow_str_lines() {
    let mut b = Buffer::new();
    b.insert(0, "uno\r\ndos\n\ntres\n");
    assert_eq!(b.line(0), "uno");
    assert_eq!(b.line(1), "dos");
    assert_eq!(b.line(2), "");
    assert_eq!(b.line(3), "tres");
    assert_eq!(b.line(4), "");
    assert_eq!(b.line(99), "");
    assert_eq!(b.line_count(), 4);
    let text = b.rope().to_string();
    let expected: Vec<&str> = text.lines().collect();
    assert_eq!(expected.len(), b.line_count());
    for (i, l) in expected.iter().enumerate() {
        assert_eq!(&b.line(i), l);
    }
}

#[test]
fn line_count_without_final_newline() {
    let b = Buffer::from_text("a.txt".to_string(), "x\ny");
    assert_eq!(b.line_count(), 2);
    assert_eq!(b.line(1), "y");
    let c = Buffer::from_text("a.txt".to_string(), "\n");
    assert_eq!(c.line_count(), 1);
    assert_eq!(c.line(0), "");
}

#[test]
fn cursor_is_kept_within_text() {
    let mut b = Buffer::new();
    b.insert(0, "abc");
    b.set_cursor(10);
    assert_eq!(b.cursor(), 3);
    b.set_cursor(1);
    assert_eq!(b.cursor(), 1);
}

#[test]
fn save_request_needs_a_file() {
    let mut b = Buffer::new();
    assert_eq!(b.save_request(), Err("buffer sin archivo asociado".to_string()));
    b.set_file_path("notas.txt".to_string());
    b.insert(0, "hola");
    assert_eq!(b.save_request(), Ok(("notas.txt".to_string(), "hola".to_string())));
    assert_eq!(b.file_path(), Some("notas.txt"));
}

#[test]
fn from_text_loads_clean_buffer() {
    let b = Buffer::from_text("f.txt".to_string(), "contenido");
    assert_eq!(b.rope().to_string(), "contenido");
    assert_eq!(b.file_path(), Some("f.txt"));
    assert!(!b.is_modified());
}

#[test]
fn set_rope_replaces_text() {
    let mut b = Buffer::new();
    b.set_rope(Rope::new("nuevo"));
    assert_eq!(b.rope().to_string(), "nuevo");
    assert!(!b.is_modified());
}

#[test]
fn clipboard_gives_back_copy() {
    let mut c = Clipboard::new();
    assert_eq!(c.paste(), "");
    c.copy("línea");
    assert_eq!(c.paste(), "línea");
    c.copy("otra");
    assert_eq!(c.paste(), "otra");
}

#[test]
fn default_styles() {
    let s = Style::default();
    assert_eq!(s.fg, Color::Reset);
    assert_eq!(s.bg, Color::Reset);
    assert!(!s.bold);
    let t = Theme::default();
    assert_eq!(t.normal.bg, Color::Rgb(38, 38, 36));
    assert_eq!(t.help_bar.fg, Color::Rgb(250, 128, 114));
    assert!(t.status_bar.bold);
    let c = Config::default();
    assert_eq!(c.tab_size, 4);
    assert!(c.line_numbers);
    assert_eq!(c.theme.cursor.bg, Color::White);
}

#[test]
fn viewport_moves() {
    let mut v = Viewport::new(80, 10);
    assert_eq!(v.visible_lines(), 0..10);
    v.scroll(5);
    assert_eq!(v.visible_lines(), 5..15);
    v.scroll(-20);
    assert_eq!(v.visible_lines(), 0..10);
    v.ensure_visible(25);
    assert_eq!(v.visible_lines(), 16..26);
    v.ensure_visible(3);
    assert_eq!(v.visible_lines(), 3..13);
    v.ensure_visible(7);
    assert_eq!(v.visible_lines(), 3..13);
    v.resize(40, 5);
    assert_eq!(v.width(), 40);
    assert_eq!(v.left_col(), 0);
    assert_eq!(v.visible_lines(), 3..8);
}

#[test]
fn empty_viewport_only_moves_up() {
    let mut v = Viewport::new(80, 0);
    v.ensure_visible(9);
    assert_eq!(v.visible_lines(), 0..0);
    v.scroll(4);
    v.ensure_visible(2);
    assert_eq!(v.visible_lines(), 2..2);
}

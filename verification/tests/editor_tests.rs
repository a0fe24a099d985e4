use rope_editor::editor::{Editor, EditorMode, Effect};
use rope_editor::input::{Command, Direction, InputHandler, KeyCode, KeyEvent, Modifiers};
use rope_editor::renderer::{pad_to_width, row_text};
use rope_editor::style::Color;
use rope_editor::text::decimal_string;

fn key(code: KeyCode) -> KeyEvent {
    KeyEvent { code, modifiers: Modifiers { ctrl: false, alt: false, shift: false } }
}

fn ctrl(c: char) -> KeyEvent {
    KeyEvent { code: KeyCode::Char(c), modifiers: Modifiers { ctrl: true, alt: false, shift: false } }
}

fn press(e: &mut Editor, ev: KeyEvent) -> Effect {
    assert!(e.can_handle(&ev));
    e.handle_input(ev)
}

fn type_text(e: &mut Editor, s: &str) {
    for c in s.chars() {
        press(e, key(KeyCode::Char(c)));
    }
}

fn text(e: &Editor) -> String {
    e.buffer().rope().to_string()
}

fn is_nothing(eff: &Effect) -> bool {
    matches!(eff, Effect::Nothing)
}

#[test]
fn new_editor_state() {
    let e = Editor::new(80, 24);
    assert!(e.is_running());
    assert_eq!(text(&e), "");
    assert_eq!(e.viewport().width(), 80);
    assert_eq!(e.viewport().visible_lines(), 0..22);
    assert_eq!(Editor::new(10, 2).viewport().visible_lines(), 0..1);
    assert_eq!(e.theme().status_bar.bg, Color::Blue);
    assert_eq!(e.status_line(), " NORMAL [sin nombre]  — pos 0 ");
}

#[test]
fn key_map_per_mode() {
    let h = InputHandler::new();
    assert!(matches!(h.map_key(ctrl('s'), EditorMode::Insert), Command::Save));
    assert!(matches!(h.map_key(ctrl('q'), EditorMode::Visual), Command::Quit));
    assert!(matches!(h.map_key(ctrl('r'), EditorMode::Normal), Command::Redo));
    assert!(matches!(h.map_key(key(KeyCode::Char('i')), EditorMode::Normal), Command::SwitchMode(EditorMode::Insert)));
    assert!(matches!(h.map_key(key(KeyCode::Char(':')), EditorMode::Normal), Command::SwitchMode(EditorMode::Command)));
    assert!(matches!(h.map_key(key(KeyCode::Char('x')), EditorMode::Normal), Command::DeleteCharForward));
    assert!(matches!(h.map_key(key(KeyCode::Char('z')), EditorMode::Normal), Command::NoOp));
    assert!(matches!(h.map_key(key(KeyCode::Char('x')), EditorMode::Insert), Command::InsertChar('x')));
    assert!(matches!(h.map_key(key(KeyCode::Enter), EditorMode::Insert), Command::InsertNewline));
    assert!(matches!(h.map_key(key(KeyCode::Backspace), EditorMode::Insert), Command::DeleteCharBackward));
    assert!(matches!(h.map_key(key(KeyCode::Arrow(Direction::Left)), EditorMode::Insert), Command::MoveCursor(Direction::Left, 1)));
    assert!(matches!(h.map_key(key(KeyCode::Esc), EditorMode::Command), Command::SwitchMode(EditorMode::Normal)));
    assert!(matches!(h.map_key(key(KeyCode::Char('w')), EditorMode::Command), Command::CommandChar('w')));
    assert!(matches!(h.map_key(key(KeyCode::Enter), EditorMode::Command), Command::CommandExecute));
    assert!(matches!(h.map_key(key(KeyCode::Char('i')), EditorMode::Visual), Command::NoOp));
    assert!(matches!(h.map_key(ctrl('x'), EditorMode::Insert), Command::InsertChar('x')));
}

#[test]
fn typing_and_deleting() {
    let mut e = Editor::new(80, 24);
    press(&mut e, key(KeyCode::Char('i')));
    type_text(&mut e, "hola");
    assert_eq!(text(&e), "hola");
    assert_eq!(e.buffer().cursor(), 4);
    press(&mut e, key(KeyCode::Enter));
    type_text(&mut e, "ñ");
    assert_eq!(text(&e), "hola\nñ");
    assert_eq!(e.buffer().cursor(), 7);
    // The arrows step over whole characters.
    press(&mut e, key(KeyCode::Arrow(Direction::Left)));
    assert_eq!(e.buffer().cursor(), 5);
    press(&mut e, key(KeyCode::Arrow(Direction::Right)));
    assert_eq!(e.buffer().cursor(), 7);
    // Backspace takes the whole character.
    press(&mut e, key(KeyCode::Backspace));
    assert_eq!(text(&e), "hola\n");
    assert_eq!(e.buffer().cursor(), 5);
    type_text(&mut e, "ñ");
    assert_eq!(text(&e), "hola\nñ");
    press(&mut e, key(KeyCode::Esc));
    press(&mut e, key(KeyCode::Char('u')));
    assert_eq!(text(&e), "hola\n");
    assert_eq!(e.buffer().cursor(), 5);
    press(&mut e, key(KeyCode::Char('i')));
    press(&mut e, key(KeyCode::Arrow(Direction::Left)));
    assert_eq!(e.buffer().cursor(), 4);
    press(&mut e, key(KeyCode::Backspace));
    assert_eq!(text(&e), "hol\n");
    assert_eq!(e.buffer().cursor(), 3);
    press(&mut e, key(KeyCode::Esc));
    press(&mut e, key(KeyCode::Char('x')));
    assert_eq!(text(&e), "hol");
    press(&mut e, key(KeyCode::Char('x')));
    assert_eq!(text(&e), "hol");
    assert_eq!(e.status_line(), " NORMAL [sin nombre] [+] — pos 3 ");
}

#[test]
fn delete_takes_whole_characters() {
    let mut e = Editor::new(80, 24);
    e.open_file("a.txt".to_string(), "ñé€b");
    assert_eq!(e.buffer().cursor(), 0);
    press(&mut e, key(KeyCode::Arrow(Direction::Right)));
    assert_eq!(e.buffer().cursor(), 2);
    press(&mut e, key(KeyCode::Arrow(Direction::Left)));
    assert_eq!(e.buffer().cursor(), 0);
    press(&mut e, key(KeyCode::Char('x')));
    assert_eq!(text(&e), "é€b");
    assert_eq!(e.buffer().cursor(), 0);
    press(&mut e, key(KeyCode::Char('x')));
    assert_eq!(text(&e), "€b");
    press(&mut e, key(KeyCode::Char('x')));
    assert_eq!(text(&e), "b");
    press(&mut e, key(KeyCode::Char('u')));
    assert_eq!(text(&e), "€b");
    assert_eq!(e.buffer().cursor(), 0);
    press(&mut e, key(KeyCode::Char('i')));
    type_text(&mut e, "😀");
    assert_eq!(e.buffer().cursor(), 4);
    press(&mut e, key(KeyCode::Backspace));
    assert_eq!(text(&e), "€b");
    assert_eq!(e.buffer().cursor(), 0);
    press(&mut e, key(KeyCode::Backspace));
    assert_eq!(text(&e), "€b");
    assert_eq!(e.buffer().cursor(), 0);
}

#[test]
fn undo_and_redo_edits() {
    let mut e = Editor::new(80, 24);
    press(&mut e, key(KeyCode::Char('i')));
    type_text(&mut e, "ab");
    press(&mut e, key(KeyCode::Esc));
    press(&mut e, key(KeyCode::Char('u')));
    assert_eq!(text(&e), "a");
    assert_eq!(e.buffer().cursor(), 1);
    press(&mut e, key(KeyCode::Char('u')));
    assert_eq!(text(&e), "");
    press(&mut e, key(KeyCode::Char('u')));
    assert_eq!(text(&e), "");
    press(&mut e, ctrl('r'));
    assert_eq!(text(&e), "a");
    press(&mut e, ctrl('r'));
    assert_eq!(text(&e), "ab");
    press(&mut e, ctrl('r'));
    assert_eq!(text(&e), "ab");
}

#[test]
fn copy_line_and_paste() {
    let mut e = Editor::new(80, 24);
    press(&mut e, key(KeyCode::Char('i')));
    type_text(&mut e, "uno");
    press(&mut e, key(KeyCode::Enter));
    type_text(&mut e, "dos");
    press(&mut e, key(KeyCode::Esc));
    press(&mut e, key(KeyCode::Char('y')));
    press(&mut e, key(KeyCode::Char('p')));
    assert_eq!(text(&e), "uno\ndosdos");
    assert_eq!(e.buffer().cursor(), 10);
    press(&mut e, key(KeyCode::Char('u')));
    assert_eq!(text(&e), "uno\ndos");
    assert_eq!(e.buffer().cursor(), 7);
}

#[test]
fn command_line_save_asks_for_write() {
    let mut e = Editor::new(80, 24);
    press(&mut e, key(KeyCode::Char('i')));
    type_text(&mut e, "texto");
    press(&mut e, key(KeyCode::Esc));
    press(&mut e, key(KeyCode::Char(':')));
    type_text(&mut e, "w  notas.txt");
    assert_eq!(e.status_line(), " :w  notas.txt");
    let eff = press(&mut e, key(KeyCode::Enter));
    match eff {
        Effect::WriteFile { path, contents } => {
            assert_eq!(path, "notas.txt");
            assert_eq!(contents, "texto");
        }
        _ => panic!("a write was expected"),
    }
    e.finish_save(Ok(()));
    assert_eq!(e.status_line(), " NORMAL notas.txt  — guardado en notas.txt ");
    assert!(e.is_running());
}

#[test]
fn save_without_file_reports_error() {
    let mut e = Editor::new(80, 24);
    let eff = press(&mut e, ctrl('s'));
    assert!(is_nothing(&eff));
    assert_eq!(e.status_line(), " NORMAL [sin nombre]  — error al guardar: buffer sin archivo asociado ");
}

#[test]
fn failed_write_reports_error() {
    let mut e = Editor::new(80, 24);
    e.set_new_file_path("x.txt".to_string());
    let eff = press(&mut e, ctrl('s'));
    assert!(matches!(eff, Effect::WriteFile { .. }));
    e.finish_save(Err("permiso denegado".to_string()));
    assert_eq!(e.status_line(), " NORMAL x.txt  — error al guardar: permiso denegado ");
}

#[test]
fn command_line_quit_and_unknown() {
    let mut e = Editor::new(80, 24);
    press(&mut e, key(KeyCode::Char(':')));
    type_text(&mut e, "zz");
    press(&mut e, key(KeyCode::Backspace));
    type_text(&mut e, "y");
    press(&mut e, key(KeyCode::Enter));
    assert_eq!(e.status_line(), " NORMAL [sin nombre]  — comando desconocido: zy ");
    press(&mut e, key(KeyCode::Char(':')));
    assert_eq!(e.status_line(), " :");
    press(&mut e, key(KeyCode::Enter));
    assert!(e.is_running());
    press(&mut e, key(KeyCode::Char(':')));
    type_text(&mut e, "\tq ");
    press(&mut e, key(KeyCode::Enter));
    assert!(!e.is_running());
}

#[test]
fn wq_saves_and_quits() {
    let mut e = Editor::new(80, 24);
    press(&mut e, key(KeyCode::Char(':')));
    type_text(&mut e, "wq salida.txt");
    let eff = press(&mut e, key(KeyCode::Enter));
    assert!(matches!(eff, Effect::WriteFile { .. }));
    assert!(!e.is_running());
}

#[test]
fn open_refused_with_unsaved_changes() {
    let mut e = Editor::new(80, 24);
    press(&mut e, key(KeyCode::Char('i')));
    type_text(&mut e, "x");
    press(&mut e, key(KeyCode::Esc));
    press(&mut e, key(KeyCode::Char(':')));
    type_text(&mut e, "e otro.txt");
    let eff = press(&mut e, key(KeyCode::Enter));
    assert!(is_nothing(&eff));
    assert_eq!(
        e.status_line(),
        " NORMAL [sin nombre] [+] — hay cambios sin guardar — usá :e! para descartarlos "
    );
    press(&mut e, key(KeyCode::Char(':')));
    type_text(&mut e, "e! otro.txt");
    let eff = press(&mut e, key(KeyCode::Enter));
    match eff {
        Effect::ReadFile { path } => {
            e.finish_open(path, Ok("nuevo\ntexto".to_string()));
        }
        _ => panic!("a read was expected"),
    }
    assert_eq!(text(&e), "nuevo\ntexto");
    assert_eq!(e.status_line(), " NORMAL otro.txt  — abierto otro.txt ");
    press(&mut e, key(KeyCode::Char('u')));
    assert_eq!(text(&e), "nuevo\ntexto");
}

#[test]
fn open_usage_and_failure() {
    let mut e = Editor::new(80, 24);
    press(&mut e, key(KeyCode::Char(':')));
    type_text(&mut e, "e");
    press(&mut e, key(KeyCode::Enter));
    assert_eq!(e.status_line(), " NORMAL [sin nombre]  — uso: :e archivo.txt ");
    press(&mut e, key(KeyCode::Char(':')));
    type_text(&mut e, "e!");
    press(&mut e, key(KeyCode::Enter));
    assert_eq!(e.status_line(), " NORMAL [sin nombre]  — uso: :e! archivo.txt ");
    press(&mut e, key(KeyCode::Char(':')));
    type_text(&mut e, "e falta.txt");
    let eff = press(&mut e, key(KeyCode::Enter));
    if let Effect::ReadFile { path } = eff {
        e.finish_open(path, Err("no existe".to_string()));
    } else {
        panic!("a read was expected");
    }
    assert_eq!(e.status_line(), " NORMAL [sin nombre]  — error al abrir: no existe ");
}

#[test]
fn open_file_keeps_history() {
    let mut e = Editor::new(80, 24);
    e.open_file("a.txt".to_string(), "abc");
    assert_eq!(text(&e), "abc");
    assert_eq!(e.save_file(), Ok(("a.txt".to_string(), "abc".to_string())));
}

#[test]
fn moving_scrolls_the_window() {
    let mut e = Editor::new(80, 5);
    press(&mut e, key(KeyCode::Char('i')));
    for _ in 0..6 {
        press(&mut e, key(KeyCode::Enter));
    }
    assert_eq!(e.viewport().visible_lines(), 0..3);
    press(&mut e, key(KeyCode::Arrow(Direction::Left)));
    assert_eq!(e.viewport().visible_lines(), 3..6);
    press(&mut e, key(KeyCode::Arrow(Direction::Up)));
    assert_eq!(e.buffer().cursor(), 4);
    assert_eq!(e.viewport().visible_lines(), 3..6);
    press(&mut e, key(KeyCode::Arrow(Direction::Up)));
    press(&mut e, key(KeyCode::Arrow(Direction::Up)));
    assert_eq!(e.buffer().cursor(), 2);
    assert_eq!(e.viewport().visible_lines(), 2..5);
    press(&mut e, key(KeyCode::Arrow(Direction::Right)));
    press(&mut e, key(KeyCode::Arrow(Direction::Right)));
    assert_eq!(e.buffer().cursor(), 4);
}

#[test]
fn up_and_down_keep_the_column() {
    let mut e = Editor::new(80, 24);
    e.open_file("a.txt".to_string(), "añbc
xy
üvwxyz
");
    // Cursor at the start; go to column 3 of the first line ("añb|c").
    for _ in 0..3 {
        press(&mut e, key(KeyCode::Arrow(Direction::Right)));
    }
    assert_eq!(e.buffer().cursor(), 4);
    // The second line is shorter: the cursor stops at its end.
    press(&mut e, key(KeyCode::Arrow(Direction::Down)));
    assert_eq!(e.buffer().cursor(), 8);
    // On the third line the column is that of the line left, 2.
    press(&mut e, key(KeyCode::Arrow(Direction::Down)));
    assert_eq!(e.buffer().cursor(), 12);
    // The empty last line.
    press(&mut e, key(KeyCode::Arrow(Direction::Down)));
    assert_eq!(e.buffer().cursor(), 17);
    // Nothing below the last line.
    press(&mut e, key(KeyCode::Arrow(Direction::Down)));
    assert_eq!(e.buffer().cursor(), 17);
    press(&mut e, key(KeyCode::Arrow(Direction::Up)));
    assert_eq!(e.buffer().cursor(), 9);
    press(&mut e, key(KeyCode::Arrow(Direction::Up)));
    press(&mut e, key(KeyCode::Arrow(Direction::Up)));
    assert_eq!(e.buffer().cursor(), 0);
    // Nothing above the first line.
    press(&mut e, key(KeyCode::Arrow(Direction::Up)));
    assert_eq!(e.buffer().cursor(), 0);
    assert_eq!(text(&e), "añbc
xy
üvwxyz
");
}

#[test]
fn hints_per_mode() {
    let mut e = Editor::new(80, 24);
    assert_eq!(
        e.keybind_hints(),
        "i Insertar │ : Comando │ x Borrar │ y Copiar línea │ p Pegar │ u Deshacer │ ←↑↓→ Mover │ ^S Guardar │ ^Q Salir │ ^R Rehacer"
    );
    press(&mut e, key(KeyCode::Char('i')));
    assert_eq!(
        e.keybind_hints(),
        "Esc Volver a Normal │ Enter Nueva línea │ Backspace Borrar │ ^S Guardar │ ^Q Salir │ ^R Rehacer"
    );
    assert_eq!(e.status_line(), " INSERT [sin nombre]  — pos 0 ");
    press(&mut e, key(KeyCode::Esc));
    press(&mut e, key(KeyCode::Char(':')));
    assert_eq!(
        e.keybind_hints(),
        "Enter Ejecutar │ Esc Cancelar │ :w [archivo] Guardar │ :e archivo Abrir │ :q Salir │ :wq Guardar y salir"
    );
}

#[test]
fn quit_key() {
    let mut e = Editor::new(80, 24);
    press(&mut e, key(KeyCode::Char('q')));
    assert!(!e.is_running());
}

#[test]
fn rows_are_padded_windows() {
    assert_eq!(pad_to_width("abc", 5), "abc  ");
    assert_eq!(pad_to_width("abcdef", 3), "abc");
    assert_eq!(pad_to_width("ñú", 3), "ñú ");
    assert_eq!(pad_to_width("", 0), "");
    let mut e = Editor::new(4, 5);
    press(&mut e, key(KeyCode::Char('i')));
    type_text(&mut e, "abcdefg");
    press(&mut e, key(KeyCode::Enter));
    type_text(&mut e, "xy");
    assert_eq!(row_text(e.buffer(), e.viewport(), 0), "abcd");
    assert_eq!(row_text(e.buffer(), e.viewport(), 1), "xy  ");
    assert_eq!(row_text(e.buffer(), e.viewport(), 2), "    ");
}

#[test]
fn decimal_numbers() {
    assert_eq!(decimal_string(0), "0");
    assert_eq!(decimal_string(7), "7");
    assert_eq!(decimal_string(10), "10");
    assert_eq!(decimal_string(1234567), "1234567");
    assert_eq!(decimal_string(usize::MAX), usize::MAX.to_string());
}

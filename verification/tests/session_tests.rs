use rope_editor::session::{looks_like_text, names_wsl, version_is_wsl, EditorApp, EntryKind};

#[test]
fn default_state() {
    let app = EditorApp::default();
    assert_eq!(app.text(), "");
    assert_eq!(app.status(), "Listo");
    assert!(!app.is_dirty());
    assert!(app.current_file().is_none());
}

#[test]
fn undo_restores_last_snapshot_and_redo_returns() {
    let mut app = EditorApp::default();
    app.edit_text("hola".to_string());
    assert!(app.is_dirty());
    app.snapshot_if_changed();
    app.edit_text("hola mundo".to_string());
    app.undo();
    assert_eq!(app.text(), "hola");
    assert_eq!(app.status(), "Deshecho");
    app.undo();
    assert_eq!(app.text(), "");
    app.undo();
    assert_eq!(app.text(), "");
    assert_eq!(app.status(), "Nada para deshacer");
    app.redo();
    assert_eq!(app.text(), "hola");
    assert_eq!(app.status(), "Rehecho");
    app.redo();
    assert_eq!(app.text(), "hola mundo");
    app.redo();
    assert_eq!(app.text(), "hola mundo");
    assert_eq!(app.status(), "Nada para rehacer");
}

#[test]
fn snapshot_without_change_records_nothing() {
    let mut app = EditorApp::default();
    app.snapshot_if_changed();
    app.undo();
    assert_eq!(app.status(), "Nada para deshacer");
    assert!(!app.is_dirty());
}

#[test]
fn save_needs_a_path() {
    let mut app = EditorApp::default();
    app.edit_text("x".to_string());
    assert_eq!(app.save_target(), None);
    assert_eq!(app.status(), "Escribí una ruta de archivo antes de guardar");
    app.set_file_path_input("nota.txt".to_string());
    let path = app.save_target().unwrap();
    assert_eq!(path, "nota.txt");
    app.finish_save(path, Ok(()));
    assert_eq!(app.status(), "Guardado");
    assert!(!app.is_dirty());
    assert_eq!(app.current_file(), Some("nota.txt"));
    app.set_file_path_input("otro.txt".to_string());
    assert_eq!(app.save_target(), Some("nota.txt".to_string()));
    app.finish_save("nota.txt".to_string(), Err("disco lleno".to_string()));
    assert_eq!(app.status(), "Error al guardar: disco lleno");
}

#[test]
fn open_loads_text() {
    let mut app = EditorApp::default();
    app.set_file_path_input("dir/a.txt".to_string());
    assert_eq!(app.open(), "dir/a.txt");
    app.finish_open("dir/a.txt".to_string(), Ok("contenido".to_string()));
    assert_eq!(app.text(), "contenido");
    assert_eq!(app.status(), "Archivo abierto");
    assert_eq!(app.open(), "a.txt");
    assert_eq!(app.current_file(), Some("dir/a.txt"));
    assert!(!app.is_dirty());
    app.finish_open("b.txt".to_string(), Err("no encontrado".to_string()));
    assert_eq!(app.status(), "Error al abrir: no encontrado");
    assert_eq!(app.text(), "contenido");
    assert_eq!(app.open(), "a.txt");
}

#[test]
fn open_names_the_last_component() {
    let mut app = EditorApp::default();
    app.finish_open("notas/2024/lista.md".to_string(), Ok("x".to_string()));
    assert_eq!(app.open(), "lista.md");
    assert_eq!(app.current_file(), Some("notas/2024/lista.md"));
    app.finish_open("plano.txt".to_string(), Ok("y".to_string()));
    assert_eq!(app.open(), "plano.txt");
    app.finish_open("carpeta/..".to_string(), Ok("z".to_string()));
    assert_eq!(app.open(), "plano.txt");
    assert_eq!(app.current_file(), Some("carpeta/.."));
    app.finish_open("dir/notes.txt/./".to_string(), Ok("v".to_string()));
    assert_eq!(app.open(), "notes.txt");
    app.finish_open("/".to_string(), Ok("u".to_string()));
    assert_eq!(app.open(), "notes.txt");
    app.open_with_name("x/y".to_string(), Some("elegido".to_string()), Ok("w".to_string()));
    assert_eq!(app.open(), "elegido");
    assert_eq!(app.text(), "w");
}

#[test]
fn listing_sorts_each_kind_apart() {
    let entries = vec![
        ("zeta".to_string(), EntryKind::Directory),
        ("b.txt".to_string(), EntryKind::TextFile),
        ("imagen.png".to_string(), EntryKind::Other),
        ("Alfa".to_string(), EntryKind::Directory),
        ("a.md".to_string(), EntryKind::TextFile),
        ("alfa".to_string(), EntryKind::Directory),
    ];
    let (dirs, files) = EditorApp::list_dir(entries);
    assert_eq!(dirs, vec!["Alfa", "alfa", "zeta"]);
    assert_eq!(files, vec!["a.md", "b.txt"]);
}

#[test]
fn text_detection() {
    assert!(looks_like_text(b"hola\nmundo"));
    assert!(looks_like_text(b""));
    assert!(!looks_like_text(&[0x89, b'P', b'N', b'G', 0, 1]));
}

#[test]
fn wsl_is_told_by_the_version_text() {
    assert!(version_is_wsl("Linux version 5.15.153.1-microsoft-standard-WSL2"));
    assert!(version_is_wsl("Linux version 4.4.0-19041-Microsoft"));
    assert!(version_is_wsl("built for WSL"));
    assert!(!version_is_wsl("Linux version 6.1.0-18-amd64 (debian-kernel@lists.debian.org)"));
    assert!(!version_is_wsl(""));
    assert!(names_wsl("x wsl y"));
    assert!(!names_wsl("Microsoft"));
    assert!(!names_wsl("ws l"));
}

use rope_editor::rope::Rope;

#[test]
fn concat_basico() {
    let a = Rope::new("Hola, ");
    let b = Rope::new("mundo!");
    let c = a.concat(&b);
    assert_eq!(c.to_string(), "Hola, mundo!");
    assert_eq!(c.len(), 12);
}

#[test]
fn split_preserva_contenido() {
    let r = Rope::new("Hola, mundo!");
    let (left, right) = r.split_at(6);
    assert_eq!(left.to_string(), "Hola, ");
    assert_eq!(right.to_string(), "mundo!");
}

#[test]
fn insert_no_muta_original() {
    let original = Rope::new("Hola mundo");
    let editado = original.insert(4, " lindo");
    assert_eq!(original.to_string(), "Hola mundo");
    assert_eq!(editado.to_string(), "Hola lindo mundo");
}

#[test]
fn delete_funciona() {
    let r = Rope::new("Hola lindo mundo");
    let sin_lindo = r.delete(4, 10);
    assert_eq!(sin_lindo.to_string(), "Hola mundo");
}

#[test]
fn rebalance_preserva_contenido() {
    let mut r = Rope::new("");
    for palabra in ["uno ", "dos ", "tres ", "cuatro"] {
        r = r.insert(r.len(), palabra);
    }
    let balanceado = r.rebalance();
    assert_eq!(r.to_string(), balanceado.to_string());
}

#[test]
fn char_at_funciona() {
    let r = Rope::new("Hola");
    assert_eq!(r.char_at(0), Some('H'));
    assert_eq!(r.char_at(3), Some('a'));
    assert_eq!(r.char_at(4), None);
}

// Further cases of the rope's behaviour.

#[test]
fn split_then_concat_gives_text_back() {
    let r = Rope::new("abc").concat(&Rope::new("def")).concat(&Rope::new("ghi"));
    for i in 0..=r.len() {
        let (l, rest) = r.split_at(i);
        assert_eq!(l.len() + rest.len(), 9);
        assert_eq!(l.concat(&rest).to_string(), "abcdefghi");
    }
}

#[test]
fn delete_undoes_insert() {
    let r = Rope::new("Hola mundo");
    let ins = r.insert(5, "ñandú ");
    assert_eq!(ins.to_string(), "Hola ñandú mundo");
    let back = ins.delete(5, 5 + "ñandú ".len());
    assert_eq!(back.to_string(), "Hola mundo");
}

#[test]
fn insert_at_end_appends() {
    let r = Rope::new("ab");
    assert_eq!(r.insert(2, "cd").to_string(), "abcd");
    assert_eq!(r.insert(0, "x").to_string(), "xab");
}

#[test]
fn lengths_count_bytes() {
    let r = Rope::new("año");
    assert_eq!(r.len(), 4);
    assert!(!r.is_empty());
    assert!(Rope::new("").is_empty());
    assert_eq!(Rope::new("").len(), 0);
}

#[test]
fn char_at_on_multibyte_text() {
    let r = Rope::new("añ").concat(&Rope::new("o€"));
    assert_eq!(r.char_at(0), Some('a'));
    assert_eq!(r.char_at(1), Some('ñ'));
    assert_eq!(r.char_at(2), None);
    assert_eq!(r.char_at(3), Some('o'));
    assert_eq!(r.char_at(4), Some('€'));
    assert_eq!(r.char_at(5), None);
    assert_eq!(r.char_at(7), None);
    assert_eq!(r.char_at(100), None);
}

#[test]
fn char_boundaries() {
    let r = Rope::new("ñ").concat(&Rope::new("x"));
    assert!(r.is_char_boundary(0));
    assert!(!r.is_char_boundary(1));
    assert!(r.is_char_boundary(2));
    assert!(r.is_char_boundary(3));
    assert!(!r.is_char_boundary(4));
}

#[test]
fn split_inside_tree() {
    let r = Rope::new("ab").concat(&Rope::new("cd")).concat(&Rope::new("ef"));
    let (l, rr) = r.split_at(3);
    assert_eq!(l.to_string(), "abc");
    assert_eq!(rr.to_string(), "def");
    let (l, rr) = r.split_at(2);
    assert_eq!(l.to_string(), "ab");
    assert_eq!(rr.to_string(), "cdef");
}

#[test]
fn rebalance_keeps_text_of_many_pieces() {
    let mut r = Rope::new("");
    for i in 0..20 {
        r = r.insert(r.len(), if i % 2 == 0 { "x" } else { "yz" });
    }
    let b = r.rebalance();
    assert_eq!(b.to_string(), r.to_string());
    assert_eq!(b.len(), 30);
}

#[test]
fn line_at_counts_line_feeds_before() {
    let r = Rope::new("uno\ndos\n").concat(&Rope::new("tres"));
    assert_eq!(r.line_at(0), 0);
    assert_eq!(r.line_at(3), 0);
    assert_eq!(r.line_at(4), 1);
    assert_eq!(r.line_at(8), 2);
    assert_eq!(r.line_at(1000), 2);
}

#[test]
fn cursor_stays_within_rope() {
    let r = Rope::new("hola");
    let mut c = r.cursor_at(10);
    assert_eq!(c.position(), 4);
    c.move_left(3);
    assert_eq!(c.position(), 1);
    c.move_left(5);
    assert_eq!(c.position(), 0);
    c.move_right(2);
    assert_eq!(c.position(), 2);
    c.move_right(7);
    assert_eq!(c.position(), 4);
    assert_eq!(r.cursor_at(3).position(), 3);
}

#[test]
fn clone_holds_same_text() {
    let r = Rope::new("abc").concat(&Rope::new("d"));
    let c = r.clone();
    assert_eq!(c.to_string(), "abcd");
    assert_eq!(c.len(), r.len());
}

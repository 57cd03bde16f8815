use oxide_rs::ui::input::{InputWidget, Key};

fn typed(keys: &[Key]) -> InputWidget {
    let mut w = InputWidget::new();
    for key in keys {
        w.handle_key(*key);
    }
    w
}

#[test]
fn a_new_line_is_empty() {
    let w = InputWidget::new();
    assert_eq!(w.get_text(), "");
    assert_eq!(w.cursor_position(), 0);
    let w = InputWidget::default();
    assert_eq!(w.get_text(), "");
}

#[test]
fn characters_go_in_at_the_cursor() {
    let w = typed(&[Key::Char('a'), Key::Char('c'), Key::Left, Key::Char('b')]);
    assert_eq!(w.get_text(), "abc");
    assert_eq!(w.cursor_position(), 2);
    let w = typed(&[Key::Char('\u{e9}'), Key::Char('t'), Key::Home, Key::Char('\u{2581}')]);
    assert_eq!(w.get_text(), "\u{2581}\u{e9}t");
    assert_eq!(w.cursor_position(), 1);
}

#[test]
fn backspace_and_delete_take_characters_out() {
    let w = typed(&[Key::Char('a'), Key::Char('b'), Key::Char('c'), Key::Backspace]);
    assert_eq!(w.get_text(), "ab");
    assert_eq!(w.cursor_position(), 2);
    let w = typed(&[Key::Char('a'), Key::Char('b'), Key::Char('c'), Key::Home, Key::Delete]);
    assert_eq!(w.get_text(), "bc");
    assert_eq!(w.cursor_position(), 0);
    let w = typed(&[Key::Char('a'), Key::Home, Key::Backspace]);
    assert_eq!(w.get_text(), "a");
    let w = typed(&[Key::Char('a'), Key::Delete]);
    assert_eq!(w.get_text(), "a");
    assert_eq!(w.cursor_position(), 1);
}

#[test]
fn the_cursor_stays_within_the_text() {
    let w = typed(&[Key::Left, Key::Right, Key::Char('a'), Key::Right, Key::Right]);
    assert_eq!(w.cursor_position(), 1);
    let w = typed(&[Key::Char('a'), Key::Char('b'), Key::Home, Key::Left]);
    assert_eq!(w.cursor_position(), 0);
    let w = typed(&[Key::Char('a'), Key::Char('b'), Key::Home, Key::End]);
    assert_eq!(w.cursor_position(), 2);
    let w = typed(&[Key::Char('a'), Key::Other]);
    assert_eq!(w.get_text(), "a");
    assert_eq!(w.cursor_position(), 1);
}

#[test]
fn clearing_empties_the_line() {
    let mut w = typed(&[Key::Char('a'), Key::Char('b')]);
    w.clear();
    assert_eq!(w.get_text(), "");
    assert_eq!(w.cursor_position(), 0);
    w.handle_key(Key::Char('z'));
    assert_eq!(w.get_text(), "z");
}

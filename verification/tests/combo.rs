use effort::combo_buffer::ComboAction::{Delete, SelectFirst};
use effort::combo_buffer::{ComboAction, ComboBuffer};

#[test]
fn dd() {
    let mut buf = ComboBuffer::default();
    assert_eq!(buf.combo('d'), None);
    assert_eq!(buf.combo('d'), Some(Delete));
}

#[test]
fn gg() {
    let mut buf = ComboBuffer::default();
    assert_eq!(buf.combo('g'), None);
    assert_eq!(buf.combo('g'), Some(SelectFirst));
}

#[test]
fn invalid() {
    let mut buf = ComboBuffer::default();
    assert_eq!(buf.combo('d'), None);
    assert_eq!(buf.combo('g'), None);
}

#[test]
fn invalid_then_valid() {
    let mut buf = ComboBuffer::default();
    assert_eq!(buf.combo('d'), None);
    assert_eq!(buf.combo('g'), None);
    assert_eq!(buf.combo('g'), Some(SelectFirst));
}

#[test]
fn combo_cleared_after_hit() {
    let mut buf = ComboBuffer::default();
    assert_eq!(buf.combo('g'), None);
    assert_eq!(buf.combo('g'), Some(SelectFirst));
    assert_eq!(buf.combo('g'), None);
}

#[test]
fn stack_overflow() {
    let mut buf = ComboBuffer::default();
    assert_eq!(buf.combo('j'), None);
    assert_eq!(buf.combo('j'), None);
    assert_eq!(buf.combo('j'), None);
}

#[test]
fn reset_forgets_partial_combo() {
    let mut buf = ComboBuffer::default();
    assert_eq!(buf.combo('d'), None);
    buf.reset();
    assert_eq!(buf.combo('d'), None);
    assert_eq!(buf.combo('d'), Some(Delete));
}

#[test]
fn custom_combo_set() {
    let mut buf = ComboBuffer::with_combos(vec![
        (vec!['a', 'b', 'c'], ComboAction::SelectFirst),
        (vec!['x'], ComboAction::Delete),
    ]);
    assert_eq!(buf.combo('a'), None);
    assert_eq!(buf.combo('b'), None);
    assert_eq!(buf.combo('c'), Some(SelectFirst));
    assert_eq!(buf.combo('x'), Some(Delete));
}

use musicdb::list_entry::{EntryAction, EntryMouse};

#[test]
fn click_selects_then_deselects() {
    let mut e = EntryMouse::new();
    assert_eq!(e.drawn(false, false), EntryAction::Nothing);
    assert_eq!(e.left_down(), EntryAction::DragThis);
    assert_eq!(e.drawn(false, true), EntryAction::Nothing);
    assert_eq!(e.left_up(), EntryAction::Select);
    assert!(e.redraw && !e.pressed);
    assert_eq!(e.drawn(true, true), EntryAction::Nothing);
    assert!(e.selected);
    assert_eq!(e.left_down(), EntryAction::Nothing);
    assert_eq!(e.left_up(), EntryAction::Deselect);
    assert_eq!(e.left_up(), EntryAction::Nothing);
}

#[test]
fn leaving_a_selected_entry_drags_the_selection() {
    let mut e = EntryMouse::new();
    e.drawn(true, false);
    assert_eq!(e.left_down(), EntryAction::Nothing);
    assert_eq!(e.drawn(true, true), EntryAction::Nothing);
    assert_eq!(e.drawn(true, false), EntryAction::DragSelection);
    assert!(!e.pressed);
    assert_eq!(e.left_up(), EntryAction::Nothing);
}

#[test]
fn leaving_an_unselected_entry_drags_nothing_more() {
    let mut e = EntryMouse::new();
    e.drawn(false, false);
    assert_eq!(e.left_down(), EntryAction::DragThis);
    assert_eq!(e.drawn(false, false), EntryAction::Nothing);
    assert!(!e.pressed);
}

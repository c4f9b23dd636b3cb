//! The mouse on an entry of the library list: a click toggles whether the
//! entry is selected, pressing the button on an unselected entry drags the
//! entry alone, and leaving a selected entry with the button held drags the
//! whole selection.
use vstd::prelude::*;

verus! {

/// What an entry of the list knows between events: whether the left button
/// went down on it and is still held, whether it was selected when it was
/// last redrawn, and whether it must check the selection again.
#[derive(Debug, Clone, Copy, PartialEq, Eq, Structural)]
pub struct EntryMouse {
    pub pressed: bool,
    pub selected: bool,
    pub redraw: bool,
}

/// What an event on an entry asks for.
#[derive(Debug, Clone, Copy, PartialEq, Eq, Structural)]
pub enum EntryAction {
    Nothing,
    /// Start dragging this entry alone.
    DragThis,
    /// Start dragging the whole selection (as a queue).
    DragSelection,
    /// Add this entry to the selection.
    Select,
    /// Take this entry out of the selection.
    Deselect,
}

/// The left button goes down on the entry: it is held from now on, and an
/// entry that is not selected is dragged alone.
pub open spec fn after_down(e: EntryMouse) -> (EntryMouse, EntryAction) {
    (EntryMouse { pressed: true, ..e }, if e.selected { EntryAction::Nothing } else { EntryAction::DragThis })
}

/// The left button goes up: after a press on the entry, the entry's
/// selection flips and the entry checks it again.
pub open spec fn after_up(e: EntryMouse) -> (EntryMouse, EntryAction) {
    if e.pressed {
        (
            EntryMouse { pressed: false, selected: e.selected, redraw: true },
            if e.selected { EntryAction::Deselect } else { EntryAction::Select },
        )
    } else {
        (e, EntryAction::Nothing)
    }
}

/// The entry is drawn: where it must, it takes over whether it is selected
/// now; with the button held and the pointer gone outside it, the press
/// ends, and a selected entry drags the whole selection.
pub open spec fn after_drawn(e: EntryMouse, selected_now: bool, pointer_inside: bool) -> (EntryMouse, EntryAction) {
    let selected = if e.redraw { selected_now } else { e.selected };
    let leaves = e.pressed && !pointer_inside;
    (
        EntryMouse { pressed: e.pressed && pointer_inside, selected, redraw: false },
        if leaves && selected { EntryAction::DragSelection } else { EntryAction::Nothing },
    )
}

impl EntryMouse {
    /// A new entry: not pressed, not known as selected, to be checked.
    pub fn new() -> (r: EntryMouse)
        ensures
            r == (EntryMouse { pressed: false, selected: false, redraw: true }),
    {
        EntryMouse { pressed: false, selected: false, redraw: true }
    }

    pub fn left_down(&mut self) -> (r: EntryAction)
        ensures
            (*final(self), r) == after_down(*old(self)),
    {
        self.pressed = true;
        if self.selected {
            EntryAction::Nothing
        } else {
            EntryAction::DragThis
        }
    }

    pub fn left_up(&mut self) -> (r: EntryAction)
        ensures
            (*final(self), r) == after_up(*old(self)),
    {
        if self.pressed {
            self.pressed = false;
            self.redraw = true;
            if !self.selected {
                EntryAction::Select
            } else {
                EntryAction::Deselect
            }
        } else {
            EntryAction::Nothing
        }
    }

    pub fn drawn(&mut self, selected_now: bool, pointer_inside: bool) -> (r: EntryAction)
        ensures
            (*final(self), r) == after_drawn(*old(self), selected_now, pointer_inside),
    {
        if self.redraw {
            self.redraw = false;
            self.selected = selected_now;
        }
        if self.pressed && !pointer_inside {
            self.pressed = false;
            if self.selected {
                return EntryAction::DragSelection;
            }
        }
        EntryAction::Nothing
    }
}

/// A click (the button pressed and released on the entry, with nothing
/// drawn in between) flips whether the entry is selected, and leaves the
/// entry released and about to check its selection again.
pub proof fn lemma_click_flips(e: EntryMouse)
    ensures
        after_up(after_down(e).0).1 == (if e.selected { EntryAction::Deselect } else { EntryAction::Select }),
        !after_up(after_down(e).0).0.pressed,
        after_up(after_down(e).0).0.redraw,
{
}

/// Drawing with the pointer inside the entry never starts a drag.
pub proof fn lemma_drag_needs_leaving(e: EntryMouse, selected_now: bool)
    ensures
        after_drawn(e, selected_now, true).1 == EntryAction::Nothing,
{
}

} // verus!

//! A runebook's window: how its buttons are numbered, and what a press does
//! to the book.
//!
//! Every row of the book has a button for each thing it can be asked to do,
//! and the button's number is the action's base plus the row. The bases are
//! an encoding, not ids of their own, so a press is decoded from the highest
//! base down: read the other way, the charge button of row forty would be
//! taken for a Recall. A row the book does not hold is refused, never
//! clamped to another.
use vstd::prelude::*;

verus! {

/// The base of a row's free-travel button.
pub const BOOK_USE_CHARGE: u32 = 10;
/// The base of a row's Recall button.
pub const BOOK_RECALL: u32 = 50;
/// The base of a row's Sacred Journey button, which this shard does not have.
pub const BOOK_SACRED_JOURNEY: u32 = 75;
/// The base of a row's Gate Travel button.
pub const BOOK_GATE: u32 = 100;
/// The base of a row's drop button.
pub const BOOK_DROP: u32 = 200;
/// The base of a row's make-default button.
pub const BOOK_DEFAULT: u32 = 300;

/// What a row's button asks for.
#[derive(Clone, Copy, Debug, PartialEq, Eq)]
pub enum BookAction {
    UseCharge,
    Recall,
    SacredJourney,
    Gate,
    Drop,
    Default,
}

/// One marked destination in a book.
#[derive(Clone, Debug, PartialEq, Eq)]
pub struct RunebookEntry {
    pub facet: u8,
    pub x: u16,
    pub y: u16,
    pub z: i8,
    pub description: String,
}

impl RunebookEntry {
    /// An equal copy.
    pub fn copy(&self) -> (c: RunebookEntry)
        ensures
            c == *self,
    {
        RunebookEntry {
            facet: self.facet,
            x: self.x,
            y: self.y,
            z: self.z,
            description: self.description.clone(),
        }
    }
}

/// A runebook's contents.
pub struct Runebook {
    pub entries: Vec<RunebookEntry>,
    pub charges: u16,
    pub max_charges: u16,
    /// The row travel goes to when none is named.
    pub default_entry: Option<u8>,
}

/// What a press on a book's window comes to.
#[derive(Clone, Debug, PartialEq, Eq)]
pub enum BookAnswer {
    /// A button no row has (the close box, rename and the rest).
    Unhandled,
    /// A row the book does not hold.
    NoSuchEntry,
    /// Travel to the entry on a charge.
    UseCharge(RunebookEntry),
    /// Cast Recall on the entry.
    Recall(RunebookEntry),
    /// Cast Gate Travel on the entry.
    Gate(RunebookEntry),
    /// A Sacred Journey press, which this shard answers with nothing.
    Ignored,
    /// The entry is now the book's default.
    DefaultSet(RunebookEntry),
    /// The entry was taken out of the book.
    Dropped(RunebookEntry),
}

/// The base an action's buttons count up from.
pub open spec fn action_base(action: BookAction) -> u32 {
    match action {
        BookAction::UseCharge => BOOK_USE_CHARGE,
        BookAction::Recall => BOOK_RECALL,
        BookAction::SacredJourney => BOOK_SACRED_JOURNEY,
        BookAction::Gate => BOOK_GATE,
        BookAction::Drop => BOOK_DROP,
        BookAction::Default => BOOK_DEFAULT,
    }
}

/// What a button asks for and of which row, read from the highest base down.
pub open spec fn decoded(button: u32) -> Option<(BookAction, u32)> {
    if button >= BOOK_DEFAULT {
        Some((BookAction::Default, (button - BOOK_DEFAULT) as u32))
    } else if button >= BOOK_DROP {
        Some((BookAction::Drop, (button - BOOK_DROP) as u32))
    } else if button >= BOOK_GATE {
        Some((BookAction::Gate, (button - BOOK_GATE) as u32))
    } else if button >= BOOK_SACRED_JOURNEY {
        Some((BookAction::SacredJourney, (button - BOOK_SACRED_JOURNEY) as u32))
    } else if button >= BOOK_RECALL {
        Some((BookAction::Recall, (button - BOOK_RECALL) as u32))
    } else if button >= BOOK_USE_CHARGE {
        Some((BookAction::UseCharge, (button - BOOK_USE_CHARGE) as u32))
    } else {
        None
    }
}

/// A button drawn for a row is read back as that row and that action, for
/// every row a book's window can show (the narrowest band, Recall's, holds
/// twenty-five).
pub proof fn lemma_button_round_trip(action: BookAction, slot: u32)
    requires
        slot < 25,
    ensures
        decoded((action_base(action) + slot) as u32) == Some((action, slot)),
{
}

/// The button id a row's action takes: the action's base plus the row.
pub fn book_button(action: BookAction, slot: u32) -> (button: u32)
    requires
        action_base(action) + slot <= u32::MAX,
    ensures
        button == action_base(action) + slot,
{
    let base = match action {
        BookAction::UseCharge => BOOK_USE_CHARGE,
        BookAction::Recall => BOOK_RECALL,
        BookAction::SacredJourney => BOOK_SACRED_JOURNEY,
        BookAction::Gate => BOOK_GATE,
        BookAction::Drop => BOOK_DROP,
        BookAction::Default => BOOK_DEFAULT,
    };
    base + slot
}

/// What a button asks for and of which row; see [`decoded`].
pub fn decode_book_button(button: u32) -> (pressed: Option<(BookAction, u32)>)
    ensures
        pressed == decoded(button),
{
    if button >= BOOK_DEFAULT {
        Some((BookAction::Default, button - BOOK_DEFAULT))
    } else if button >= BOOK_DROP {
        Some((BookAction::Drop, button - BOOK_DROP))
    } else if button >= BOOK_GATE {
        Some((BookAction::Gate, button - BOOK_GATE))
    } else if button >= BOOK_SACRED_JOURNEY {
        Some((BookAction::SacredJourney, button - BOOK_SACRED_JOURNEY))
    } else if button >= BOOK_RECALL {
        Some((BookAction::Recall, button - BOOK_RECALL))
    } else if button >= BOOK_USE_CHARGE {
        Some((BookAction::UseCharge, button - BOOK_USE_CHARGE))
    } else {
        None
    }
}

/// A row number as the book's default, if it fits one.
pub open spec fn default_of(slot: u32) -> Option<u8> {
    if slot <= u8::MAX {
        Some(slot as u8)
    } else {
        None
    }
}

impl Runebook {
    /// Answer a press on the book's window.
    ///
    /// Travel buttons hand back the entry to travel to. Making a row the
    /// default records it; dropping a row takes it out and forgets the
    /// default, which pointed into a list that has just shifted. A row the
    /// book does not hold, and any button no row has, change nothing.
    pub fn answer(&mut self, button: u32) -> (answer: BookAnswer)
        ensures
            final(self).charges == old(self).charges,
            final(self).max_charges == old(self).max_charges,
            match decoded(button) {
                None => answer == BookAnswer::Unhandled && final(self).entries == old(
                    self,
                ).entries && final(self).default_entry == old(self).default_entry,
                Some((action, slot)) => if slot >= old(self).entries@.len() {
                    &&& answer == BookAnswer::NoSuchEntry
                    &&& final(self).entries == old(self).entries
                    &&& final(self).default_entry == old(self).default_entry
                } else {
                    let entry = old(self).entries@[slot as int];
                    match action {
                        BookAction::Default => {
                            &&& answer == BookAnswer::DefaultSet(entry)
                            &&& final(self).entries == old(self).entries
                            &&& final(self).default_entry == default_of(slot)
                        },
                        BookAction::Drop => {
                            &&& answer == BookAnswer::Dropped(entry)
                            &&& final(self).entries@ == old(self).entries@.remove(slot as int)
                            &&& final(self).default_entry is None
                        },
                        _ => {
                            &&& answer == match action {
                                BookAction::UseCharge => BookAnswer::UseCharge(entry),
                                BookAction::Recall => BookAnswer::Recall(entry),
                                BookAction::Gate => BookAnswer::Gate(entry),
                                _ => BookAnswer::Ignored,
                            }
                            &&& final(self).entries == old(self).entries
                            &&& final(self).default_entry == old(self).default_entry
                        },
                    }
                },
            },
    {
        let (action, slot) = match decode_book_button(button) {
            Some(pressed) => pressed,
            None => return BookAnswer::Unhandled,
        };
        if slot as usize >= self.entries.len() {
            return BookAnswer::NoSuchEntry;
        }
        let i = slot as usize;
        match action {
            BookAction::UseCharge => BookAnswer::UseCharge(self.entries[i].copy()),
            BookAction::Recall => BookAnswer::Recall(self.entries[i].copy()),
            BookAction::Gate => BookAnswer::Gate(self.entries[i].copy()),
            BookAction::SacredJourney => BookAnswer::Ignored,
            BookAction::Default => {
                self.default_entry = if slot <= 255 {
                    Some(slot as u8)
                } else {
                    None
                };
                BookAnswer::DefaultSet(self.entries[i].copy())
            },
            BookAction::Drop => {
                let entry = self.entries.remove(i);
                self.default_entry = None;
                BookAnswer::Dropped(entry)
            },
        }
    }
}

} // verus!

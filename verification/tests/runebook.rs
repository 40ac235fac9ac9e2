use openshard_world::runebook::{
    BookAction, BookAnswer, Runebook, RunebookEntry, book_button, decode_book_button,
};

fn entry(description: &str) -> RunebookEntry {
    RunebookEntry { facet: 0, x: 1434, y: 1699, z: 0, description: description.to_owned() }
}

fn book() -> Runebook {
    Runebook {
        entries: vec![entry("Britain bank"), entry("Moonglow"), entry("Yew gate")],
        charges: 5,
        max_charges: 10,
        default_entry: Some(2),
    }
}

#[test]
fn every_row_button_reads_back_as_itself() {
    for action in [
        BookAction::UseCharge,
        BookAction::Recall,
        BookAction::SacredJourney,
        BookAction::Gate,
        BookAction::Drop,
        BookAction::Default,
    ] {
        for slot in 0..16 {
            assert_eq!(decode_book_button(book_button(action, slot)), Some((action, slot)));
        }
    }
}

#[test]
fn the_ladder_is_read_from_the_top_down() {
    assert_eq!(decode_book_button(50), Some((BookAction::Recall, 0)), "not charge row forty");
    assert_eq!(decode_book_button(49), Some((BookAction::UseCharge, 39)));
    assert_eq!(decode_book_button(310), Some((BookAction::Default, 10)));
    assert_eq!(decode_book_button(9), None, "rename and the rest");
    assert_eq!(decode_book_button(0), None, "the close box");
}

#[test]
fn a_travel_button_hands_back_its_entry() {
    let mut book = book();
    assert_eq!(book.answer(book_button(BookAction::Recall, 1)), BookAnswer::Recall(entry("Moonglow")));
    assert_eq!(book.answer(book_button(BookAction::UseCharge, 0)), BookAnswer::UseCharge(entry("Britain bank")));
    assert_eq!(book.answer(book_button(BookAction::Gate, 2)), BookAnswer::Gate(entry("Yew gate")));
    assert_eq!(book.answer(book_button(BookAction::SacredJourney, 2)), BookAnswer::Ignored);
    assert_eq!(book.entries.len(), 3);
    assert_eq!(book.default_entry, Some(2));
}

#[test]
fn a_row_the_book_does_not_hold_is_refused_not_clamped() {
    let mut book = book();
    assert_eq!(book.answer(book_button(BookAction::Recall, 3)), BookAnswer::NoSuchEntry);
    assert_eq!(book.answer(book_button(BookAction::Drop, 15)), BookAnswer::NoSuchEntry);
    assert_eq!(book.entries.len(), 3, "and nothing was dropped");
}

#[test]
fn making_a_row_the_default_records_it() {
    let mut book = book();
    assert_eq!(book.answer(book_button(BookAction::Default, 0)), BookAnswer::DefaultSet(entry("Britain bank")));
    assert_eq!(book.default_entry, Some(0));
}

#[test]
fn dropping_a_row_forgets_the_default_it_might_have_shifted() {
    let mut book = book();
    assert_eq!(book.answer(book_button(BookAction::Drop, 0)), BookAnswer::Dropped(entry("Britain bank")));
    assert_eq!(book.entries, [entry("Moonglow"), entry("Yew gate")]);
    assert_eq!(book.default_entry, None);
    assert_eq!(book.charges, 5, "a drop spends nothing");
}

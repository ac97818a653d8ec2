use jrn::date::Date;
use jrn::db::Entry;
use jrn::entries::{Dated, EntrySet};

fn on(day: u8, text: &str) -> Entry {
    Entry { date: Date { year: 2024, month: 5, day }, text: text.to_string() }
}

fn may(day: u8) -> Date {
    Date { year: 2024, month: 5, day }
}

#[test]
fn new_set_is_empty() {
    let set: EntrySet<Entry> = EntrySet::new();
    assert_eq!(set.len(), 0);
    assert!(!set.contains(&may(1)));
    assert!(set.get(&may(1)).is_none());
    assert_eq!(set.position(&may(1)), None);
}

#[test]
fn items_are_kept_in_the_order_of_their_dates_coming_in() {
    let mut set = EntrySet::new();
    set.insert(on(3, "c"));
    set.insert(on(1, "a"));
    set.insert(on(2, "b"));
    assert_eq!(set.len(), 3);
    assert_eq!(set.at(0).text, "c");
    assert_eq!(set.at(1).text, "a");
    assert_eq!(set.at(2).text, "b");
    assert_eq!(set.position(&may(1)), Some(1));
    assert_eq!(set.position(&may(4)), None);
}

#[test]
fn item_of_a_date_that_is_there_takes_its_place() {
    let mut set = EntrySet::new();
    set.insert(on(1, "a"));
    set.insert(on(2, "b"));
    set.insert(on(1, "z"));
    assert_eq!(set.len(), 2);
    assert_eq!(set.at(0).text, "z");
    assert_eq!(set.at(1).text, "b");
    assert_eq!(set.get(&may(1)).unwrap().text, "z");
    assert!(set.contains(&may(2)));
    assert!(!set.contains(&may(3)));
}

#[test]
fn item_knows_its_date() {
    assert_eq!(on(9, "x").date(), may(9));
}

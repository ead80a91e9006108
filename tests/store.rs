use birthdays_book::birthdays::{Birthdays, Entry, StoreError, MAX_PERSONS};
use birthdays_book::validator::InvalidDate;

fn entry(name: &str, birth_day: u8, birth_month: u8) -> Entry {
    Entry { name: name.to_string(), birth_day, birth_month }
}

#[test]
fn test_new() {
    let birthdays = Birthdays::new();
    assert_eq!(birthdays.friends.capacity(), MAX_PERSONS);
}

#[test]
fn test_add_birthday() {
    let mut store = Birthdays::new();
    let b = Entry { name: "John".to_string(), birth_day: 20, birth_month: 2 };
    store.add(b).unwrap();
    assert_eq!(store.size(), 1);
}

#[test]
fn test_cannot_add_more_than_defined_size() {
    let mut store = Birthdays::new();
    let entry = Entry { name: "demo".to_string(), birth_day: 1, birth_month: 1 };
    for _i in 0..10 {
        store.add(entry.clone()).unwrap();
    }
    let res = store.add(Entry::default());
    assert!(res.is_err());
}

#[test]
fn test_size() {
    let mut store = Birthdays::new();
    let entry = Entry { name: "demo".to_string(), birth_day: 1, birth_month: 1 };
    for _i in 0..10 {
        store.add(entry.clone()).unwrap();
    }
    assert_eq!(store.size(), 10);
}

#[test]
fn test_print_birthdays() {
    let mut store = Birthdays::new();
    let entry = Entry { name: "john".to_string(), birth_day: 01, birth_month: 02 };
    let entry2 = Entry { name: "Bill".to_string(), birth_day: 3, birth_month: 10 };
    store.add(entry.clone()).unwrap();
    store.add(entry2.clone()).unwrap();

    let mut buffer = String::new();
    store.print_birthdays_to_writer(entry.birth_day, entry.birth_month, &mut buffer);

    let required_output = format!("{}: {}/{}\n", entry.name, entry.birth_day, entry.birth_month);
    assert_eq!(buffer.as_bytes(), required_output.as_bytes());
}

#[test]
fn test_that_cannot_create_birthday_with_invalid_month() {
    let tests = vec![
        (entry("Test 01", 14, 9), true),
        (entry("Test 02", 34, 3), false),
        (entry("Test 03", 29, 3), true),
        (entry("Test 04", 30, 02), false),
    ];
    let mut store = Birthdays::new();
    for (test_entry, status) in tests {
        let res = match store.add(test_entry.clone()) {
            Ok(_) => true,
            Err(_) => false,
        };
        assert_eq!(
            res, status,
            "We have proglem to the {}/{}",
            test_entry.birth_day, test_entry.birth_month
        );
    }
}

#[test]
fn full_store_reports_capacity_before_date() {
    let mut store = Birthdays::new();
    store.add(entry("John", 20, 2)).unwrap();
    assert_eq!(store.size(), 1);
    for _i in 0..9 {
        store.add(entry("demo", 1, 1)).unwrap();
    }
    assert_eq!(store.size(), 10);
    assert_eq!(store.add(entry("late", 5, 5)), Err(StoreError::CapacityExceeded));
    assert_eq!(store.add(entry("late", 31, 2)), Err(StoreError::CapacityExceeded));
    assert_eq!(store.size(), 10);
}

#[test]
fn invalid_dates_leave_store_unchanged() {
    let mut store = Birthdays::new();
    store.add(entry("kept", 4, 4)).unwrap();
    for (day, month) in [(31u8, 2u8), (0, 5), (34, 14), (34, 3), (30, 2), (31, 4), (0, 0)] {
        assert_eq!(
            store.add(entry("bad", day, month)),
            Err(StoreError::InvalidDate(InvalidDate { day, month }))
        );
        assert_eq!(store.size(), 1);
    }
    assert_eq!(store.add(Entry::default()), Err(StoreError::InvalidDate(InvalidDate { day: 0, month: 0 })));
}

#[test]
fn leap_day_always_accepted() {
    let mut store = Birthdays::new();
    assert!(store.add(entry("x", 34, 3)).is_err());
    assert!(store.add(entry("y", 29, 2)).is_ok());
    assert!(store.add(entry("z", 30, 2)).is_err());
    assert_eq!(store.size(), 1);
}

#[test]
fn find_by_date_keeps_insertion_order() {
    let mut store = Birthdays::new();
    store.add(entry("A", 7, 7)).unwrap();
    store.add(entry("other", 8, 7)).unwrap();
    store.add(entry("B", 7, 7)).unwrap();
    store.add(entry("C", 7, 7)).unwrap();
    let found: Vec<String> = store.find_by_date(7, 7).iter().map(|e| e.name.clone()).collect();
    assert_eq!(found, vec!["A".to_string(), "B".to_string(), "C".to_string()]);
}

#[test]
fn find_by_date_matches_exactly() {
    let mut store = Birthdays::new();
    store.add(entry("feb", 1, 2)).unwrap();
    assert!(store.find_by_date(1, 3).is_empty());
    assert!(store.find_by_date(2, 1).is_empty());
    assert!(store.find_by_date(2, 2).is_empty());
    assert_eq!(store.find_by_date(1, 2).len(), 1);
    assert_eq!(store.find_by_date(1, 2)[0].name, "feb");
}

#[test]
fn repeated_reads_agree() {
    let mut store = Birthdays::new();
    store.add(entry("a", 3, 3)).unwrap();
    store.add(entry("b", 3, 3)).unwrap();
    assert_eq!(store.size(), store.size());
    let first: Vec<Entry> = store.find_by_date(3, 3).into_iter().cloned().collect();
    let second: Vec<Entry> = store.find_by_date(3, 3).into_iter().cloned().collect();
    assert_eq!(first, second);
    assert_eq!(first.len(), 2);
}

#[test]
fn print_writes_every_match_in_order() {
    let mut store = Birthdays::new();
    store.add(entry("Ann", 31, 12)).unwrap();
    store.add(entry("Bob", 1, 1)).unwrap();
    store.add(entry("Cy", 31, 12)).unwrap();
    let mut out = String::from("head\n");
    store.print_birthdays_to_writer(31, 12, &mut out);
    assert_eq!(out, "head\nAnn: 31/12\nCy: 31/12\n");
    let mut none = String::new();
    store.print_birthdays_to_writer(2, 2, &mut none);
    assert_eq!(none, "");
}

use track::data::{Day, Entry, Root};

fn day_with_entries() -> Day {
    let mut day = Day::labelled(String::from("2024-03-17UTC"));
    day.add_entry(Entry::new(2, String::from("two")));
    day.add_entry(Entry::new(10, String::from("ten")));
    day.add_entry(Entry::new(2, String::from("two again")));
    day
}

#[test]
fn new_entry_is_not_started() {
    let entry = Entry::new(3, String::from("read"));
    assert_eq!(entry.id(), 3);
    assert_eq!(entry.description(), "read");
    assert_eq!(entry.started_at(), None);
}

#[test]
fn start_at_sets_the_instant() {
    let mut entry = Entry::new(3, String::from("read"));
    entry.start_at(1_234);
    assert_eq!(entry.started_at(), Some(1_234));
    entry.start_at(2_000);
    assert_eq!(entry.started_at(), Some(2_000));
    assert_eq!(entry.id(), 3);
    assert_eq!(entry.description(), "read");
}

#[test]
fn start_reads_the_clock() {
    let mut entry = Entry::new(3, String::from("read"));
    entry.start();
    // the system clock is past the year 2001
    assert!(entry.started_at().unwrap() > 1_000_000_000);
    assert_eq!(entry.id(), 3);
    assert_eq!(entry.description(), "read");
}

#[test]
fn labelled_day_is_empty() {
    let day = Day::labelled(String::from("d"));
    assert_eq!(day.val(), "d");
    assert!(day.entries().is_empty());
}

fn is_utc_day_label(label: &str) -> bool {
    let bytes = label.as_bytes();
    let n = bytes.len();
    let digits = |part: &[u8]| part.iter().all(|b| b.is_ascii_digit());
    let number = |part: &[u8]| -> u32 {
        part.iter().fold(0, |sum, b| sum * 10 + u32::from(*b - b'0'))
    };
    if n < 13 {
        return false;
    }
    let year = &bytes[..n - 9];
    let year_ok = (year.len() == 4 && digits(year))
        || (year.len() >= 5 && (year[0] == b'+' || year[0] == b'-') && digits(&year[1..]));
    year_ok
        && bytes[n - 9] == b'-'
        && digits(&bytes[n - 8..n - 6])
        && (1..=12).contains(&number(&bytes[n - 8..n - 6]))
        && bytes[n - 6] == b'-'
        && digits(&bytes[n - 5..n - 3])
        && (1..=31).contains(&number(&bytes[n - 5..n - 3]))
        && &bytes[n - 3..] == b"UTC"
}

#[test]
fn utc_day_label_shape_is_told_apart() {
    assert!(is_utc_day_label("2024-03-17UTC"));
    assert!(is_utc_day_label("+10000-03-17UTC"));
    assert!(!is_utc_day_label(""));
    assert!(!is_utc_day_label("2024-03-17"));
    assert!(!is_utc_day_label("2024-13-17UTC"));
    assert!(!is_utc_day_label("2024-03-32UTC"));
    assert!(!is_utc_day_label("03-17-2024UTC"));
}

#[test]
fn new_day_is_empty_and_labelled_by_the_clock() {
    let day = Day::new();
    assert!(day.entries().is_empty());
    assert!(is_utc_day_label(day.val()));
    // in this century the year has four digits and lies after 2020
    assert_eq!(day.val().len(), 13);
    let year: u32 = day.val()[..4].parse().unwrap();
    assert!(year >= 2020);
}

#[test]
fn two_new_days_carry_the_same_kind_of_label() {
    let first = Day::new();
    let second = Day::new();
    assert!(is_utc_day_label(first.val()));
    assert!(is_utc_day_label(second.val()));
    assert!(first.entries().is_empty() && second.entries().is_empty());
}

#[test]
fn add_entry_appends() {
    let day = day_with_entries();
    assert_eq!(day.entries().len(), 3);
    assert_eq!(day.entries()[0].description(), "two");
    assert_eq!(day.entries()[1].description(), "ten");
    assert_eq!(day.entries()[2].description(), "two again");
}

#[test]
fn entries_mut_changes_the_day() {
    let mut day = day_with_entries();
    day.entries_mut().pop();
    day.entries_mut()[0].start_at(5);
    assert_eq!(day.entries().len(), 2);
    assert_eq!(day.entries()[0].started_at(), Some(5));
}

#[test]
fn find_by_id_reads_decimal_ids() {
    let mut day = day_with_entries();
    assert_eq!(day.find_by_id("10").unwrap().description(), "ten");
    assert_eq!(day.find_by_id("2").unwrap().description(), "two");
    assert_eq!(day.find_by_id("+10").unwrap().description(), "ten");
    assert_eq!(day.find_by_id("0010").unwrap().description(), "ten");
    assert_eq!(day.position_of("2"), Some(0));
    assert_eq!(day.position_of("10"), Some(1));
}

#[test]
fn find_by_id_refuses_what_is_no_id() {
    let mut day = day_with_entries();
    assert!(day.find_by_id("").is_none());
    assert!(day.find_by_id("+").is_none());
    assert!(day.find_by_id("-2").is_none());
    assert!(day.find_by_id(" 2").is_none());
    assert!(day.find_by_id("2 ").is_none());
    assert!(day.find_by_id("two").is_none());
    assert!(day.find_by_id("2.0").is_none());
    assert!(day.find_by_id("++2").is_none());
    assert!(day.find_by_id("99999999999999999999999999").is_none());
}

#[test]
fn find_by_id_of_an_absent_id_is_none() {
    let mut day = day_with_entries();
    assert!(day.find_by_id("3").is_none());
    assert_eq!(day.position_of("3"), None);
}

#[test]
fn find_by_id_hands_out_the_stored_entry() {
    let mut day = day_with_entries();
    day.find_by_id("10").unwrap().start_at(77);
    assert_eq!(day.entries()[1].started_at(), Some(77));
    assert_eq!(day.entries()[0].started_at(), None);
    assert_eq!(day.entries()[2].started_at(), None);
}

#[test]
fn find_by_id_reads_the_largest_id() {
    let mut day = Day::labelled(String::from("d"));
    day.add_entry(Entry::new(usize::MAX, String::from("last")));
    let text = format!("{}", usize::MAX);
    assert_eq!(day.find_by_id(&text).unwrap().description(), "last");
}

#[test]
fn create_entry_allocates_ids_from_one() {
    let mut root = Root::new();
    assert_eq!(root.next_id(), 1);
    assert!(root.has_free_id());
    let first = root.create_entry(String::from("a"));
    let second = root.create_entry(String::from("b"));
    assert_eq!(first.id(), 1);
    assert_eq!(first.description(), "a");
    assert_eq!(first.started_at(), None);
    assert_eq!(second.id(), 2);
    assert_eq!(root.next_id(), 3);
    assert!(root.days().is_empty());
}

#[test]
fn day_labelled_finds_the_first_day_of_that_label() {
    let mut root = Root::new();
    root.add_day(Day::labelled(String::from("mon")));
    root.add_day(Day::labelled(String::from("tue")));
    assert_eq!(root.days().len(), 2);
    assert_eq!(root.position_of(&String::from("tue")), Some(1));
    assert_eq!(root.position_of(&String::from("wed")), None);
    let entry = root.create_entry(String::from("a"));
    root.day_labelled(&String::from("tue")).unwrap().add_entry(entry);
    assert!(root.days()[0].entries().is_empty());
    assert_eq!(root.days()[1].entries().len(), 1);
    assert!(root.day_labelled(&String::from("wed")).is_none());
}

#[test]
fn today_finds_the_day_that_the_clock_labels() {
    let mut root = Root::new();
    assert!(root.today().is_none());
    root.add_day(Day::labelled(String::from("some other day")));
    assert!(root.today().is_none());
    root.add_day(Day::new());
    let entry = root.create_entry(String::from("a"));
    root.today().unwrap().add_entry(entry);
    assert_eq!(root.days()[1].entries().len(), 1);
}

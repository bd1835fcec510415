use feed_rs::source::store::{all_urls, merge_new, new_entries_of, EntryMap};
use feed_rs::source::weekinwildlife::WeekInWildlife;
use feed_rs::source::{add_entry, entries_of, id_of, store_file_name, Date, Entry, Source};

fn d(year: i32, month: u32, day: u32) -> Date {
    Date { year, month, day }
}

fn entry(title: &str, url: &str) -> Entry {
    Entry { title: title.to_string(), url: url.to_string(), preview_image_url: String::new(), score: 1 }
}

#[test]
fn add_entry_groups_by_date() {
    let mut m = EntryMap::new();
    add_entry(&mut m, d(2024, 3, 5), "a".to_string(), "u1".to_string(), None, None);
    add_entry(&mut m, d(2024, 3, 6), "b".to_string(), "u2".to_string(), Some("p.jpg".to_string()), Some(7));
    add_entry(&mut m, d(2024, 3, 5), "c".to_string(), "u3".to_string(), Some(String::new()), None);
    assert_eq!(m.groups.len(), 2);
    assert_eq!(m.groups[0].date, d(2024, 3, 5));
    assert_eq!(m.groups[0].entries.len(), 2);
    assert_eq!(m.groups[0].entries[0].preview_image_url, "");
    assert_eq!(m.groups[0].entries[0].score, 1);
    assert_eq!(m.groups[0].entries[1].title, "c");
    assert_eq!(m.groups[1].entries[0].preview_image_url, "p.jpg");
    assert_eq!(m.groups[1].entries[0].score, 7);
}

#[test]
fn find_locates_a_date() {
    let mut m = EntryMap::new();
    m.add(d(2024, 1, 1), entry("a", "u"));
    m.add(d(2024, 1, 2), entry("b", "v"));
    assert_eq!(m.find(d(2024, 1, 2)), Some(1));
    assert_eq!(m.find(d(2024, 1, 3)), None);
}

#[test]
fn new_entries_skip_stored_and_repeated_urls() {
    let mut known = EntryMap::new();
    known.add(d(2024, 1, 1), entry("old", "u1"));
    let mut remote = EntryMap::new();
    remote.add(d(2024, 1, 1), entry("old again", "u1"));
    remote.add(d(2024, 1, 2), entry("new", "u2"));
    remote.add(d(2024, 1, 3), entry("new twice", "u2"));
    remote.add(d(2024, 1, 3), entry("other", "u3"));
    let new = new_entries_of(&remote, &known);
    assert_eq!(new.len(), 2);
    assert_eq!(new[0].entry.title, "new");
    assert_eq!(new[0].date, d(2024, 1, 2));
    assert_eq!(new[1].entry.url, "u3");
}

#[test]
fn committing_twice_adds_nothing() {
    let mut known = EntryMap::new();
    known.add(d(2024, 1, 1), entry("old", "u1"));
    let mut remote = EntryMap::new();
    remote.add(d(2024, 1, 1), entry("x", "u1"));
    remote.add(d(2024, 1, 2), entry("y", "u2"));
    let mut src = WeekInWildlife::new(known);
    src.remote_entries = remote;
    let committed = src.committed_entries();
    assert_eq!(all_urls(&committed), vec!["u1".to_string(), "u2".to_string()]);
    let mut again = WeekInWildlife::new(committed);
    again.remote_entries = src.get_remote();
    assert!(again.new_entries().is_empty());
}

#[test]
fn merge_new_appends_under_dates() {
    let mut known = EntryMap::new();
    known.add(d(2024, 1, 1), entry("a", "u1"));
    let mut remote = EntryMap::new();
    remote.add(d(2024, 1, 1), entry("b", "u2"));
    remote.add(d(2024, 2, 1), entry("c", "u3"));
    let new = new_entries_of(&remote, &known);
    let merged = merge_new(&known, &new);
    assert_eq!(merged.groups.len(), 2);
    assert_eq!(merged.groups[0].entries.len(), 2);
    assert_eq!(merged.groups[1].date, d(2024, 2, 1));
}

#[test]
fn urls_lists_stored_urls() {
    let mut known = EntryMap::new();
    known.add(d(2024, 1, 1), entry("a", "u1"));
    known.add(d(2024, 1, 2), entry("b", "u2"));
    let src = WeekInWildlife::new(known);
    assert_eq!(src.urls(), vec!["u1".to_string(), "u2".to_string()]);
}

#[test]
fn entries_of_keeps_order() {
    let mut remote = EntryMap::new();
    remote.add(d(2024, 1, 2), entry("b", "u2"));
    remote.add(d(2024, 1, 1), entry("a", "u1"));
    let new = new_entries_of(&remote, &EntryMap::new());
    let es = entries_of(new);
    assert_eq!(es.iter().map(|e| e.title.clone()).collect::<Vec<_>>(), vec!["b", "a"]);
}

#[test]
fn ids_are_lower_case_and_hyphenated() {
    assert_eq!(id_of("  Week In Wildlife "), "week-in-wildlife");
    assert_eq!(id_of("ÄBC Def"), "äbc-def");
    let src = WeekInWildlife::new(EntryMap::new());
    assert_eq!(src.id(), "weekinwildlife");
    assert_eq!(store_file_name("weekinwildlife"), "weekinwildlife.yml");
}

#[test]
fn source_names_and_addresses() {
    let src = WeekInWildlife::new(EntryMap::new());
    assert_eq!(src.name(), "WeekInWildlife");
    assert_eq!(src.base_url(), "https://www.theguardian.com/environment/series/weekinwildlife");
}

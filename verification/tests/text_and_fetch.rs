use chrono::TimeZone;
use feed_rs::dates::LocalClock;
use feed_rs::dom::{Attribute, DomNode, Document, NodeKind};
use feed_rs::source::bbcinpictures::{candidates, posted_in_range, BBCInPictures, Stamp};
use feed_rs::source::store::EntryMap;
use feed_rs::source::{Date, Source};
use feed_rs::fetch::{fetch_step, FetchStep};
use feed_rs::text::{decimal_exec, parse_i64_exec, remove_all_exec, tokens_exec, trim_chars};

fn cs(s: &str) -> Vec<char> {
    s.chars().collect()
}

fn st(v: &[char]) -> String {
    v.iter().collect()
}

#[test]
fn fetch_reads_a_successful_answer() {
    assert_eq!(fetch_step(0, 200), FetchStep::Use);
    assert_eq!(fetch_step(2, 200), FetchStep::Use);
}

#[test]
fn fetch_retries_failures_three_times() {
    assert_eq!(fetch_step(0, 503), FetchStep::Retry { retries: 1 });
    assert_eq!(fetch_step(2, 404), FetchStep::Retry { retries: 3 });
    assert_eq!(fetch_step(3, 500), FetchStep::Use);
}

#[test]
fn fetch_asks_at_most_four_times() {
    let mut retries = 0u8;
    let mut asked = 1;
    loop {
        match fetch_step(retries, 500) {
            FetchStep::Use => break,
            FetchStep::Retry { retries: r } => {
                retries = r;
                asked += 1;
            }
        }
    }
    assert_eq!(asked, 4);
}

#[test]
fn parses_i64_like_std() {
    assert_eq!(parse_i64_exec(&cs("42")), Some(42));
    assert_eq!(parse_i64_exec(&cs("-7")), Some(-7));
    assert_eq!(parse_i64_exec(&cs("+7")), Some(7));
    assert_eq!(parse_i64_exec(&cs("")), None);
    assert_eq!(parse_i64_exec(&cs("-")), None);
    assert_eq!(parse_i64_exec(&cs("4x")), None);
    assert_eq!(parse_i64_exec(&cs("9223372036854775807")), Some(i64::MAX));
    assert_eq!(parse_i64_exec(&cs("9223372036854775808")), None);
    assert_eq!(parse_i64_exec(&cs("-9223372036854775808")), Some(i64::MIN));
}

#[test]
fn decimal_forms() {
    assert_eq!(st(&decimal_exec(2024)), "2024");
    assert_eq!(st(&decimal_exec(0)), "0");
    assert_eq!(st(&decimal_exec(-15)), "-15");
    assert_eq!(st(&decimal_exec(i32::MIN)), i32::MIN.to_string());
}

#[test]
fn tokens_split_on_white_space() {
    let t = tokens_exec(&cs("  5th\u{a0}March\t2024 "), true);
    assert_eq!(t.iter().map(|x| st(x)).collect::<Vec<_>>(), vec!["5th", "March", "2024"]);
    let t2 = tokens_exec(&cs("a\u{a0}b c"), false);
    assert_eq!(t2.iter().map(|x| st(x)).collect::<Vec<_>>(), vec!["a\u{a0}b", "c"]);
}

#[test]
fn trims_and_removes() {
    assert_eq!(st(&trim_chars(&cs("\u{2003} x y \n"))), "x y");
    assert_eq!(st(&remove_all_exec(&cs("21st"), &cs("st"))), "21");
    assert_eq!(st(&remove_all_exec(&cs("aaa"), &cs("aa"))), "a");
}

fn element(depth: usize, name: &str, attrs: &[(&str, &str)]) -> DomNode {
    let attrs = attrs
        .iter()
        .map(|(n, v)| Attribute { namespace: String::new(), name: n.to_string(), value: v.to_string() })
        .collect();
    DomNode { depth, created: 0, kind: NodeKind::Element { name: name.to_string(), attrs } }
}

fn text(depth: usize, t: &str) -> DomNode {
    DomNode { depth, created: 0, kind: NodeKind::Text { text: t.to_string() } }
}

/// A document of the given nodes, created in document order.
fn numbered(mut nodes: Vec<DomNode>) -> Document {
    for (i, n) in nodes.iter_mut().enumerate() {
        n.created = i;
    }
    Document { nodes }
}

/// `<div id="a"><p>x</p><div id="b" class="Big  box">y</div></div><div>z</div>`
fn sample() -> Document {
    numbered(vec![
            DomNode { depth: 0, created: 0, kind: NodeKind::Other },
            element(1, "div", &[("id", "a")]),
            element(2, "p", &[]),
            text(3, "x"),
            element(2, "div", &[("id", "b"), ("class", "Big  box")]),
            text(3, "y"),
            element(1, "div", &[]),
            text(2, "z"),
    ])
}

#[test]
fn documents_are_walked_in_order() {
    let doc = sample();
    let divs = doc.select_doc("div");
    assert_eq!(divs, vec![1, 4, 6]);
    assert_eq!(doc.element_id(1), Some("a".to_string()));
    assert_eq!(doc.texts(1), vec!["x".to_string(), "y".to_string()]);
    assert_eq!(doc.select_within(1, "div"), vec![4]);
    assert_eq!(doc.first_within(1, "p"), Some(2));
    assert_eq!(doc.subtree_end(1), 6);
    assert_eq!(doc.parent_element(4), Some(1));
    assert_eq!(doc.parent_element(1), None);
    assert!(doc.attr(6, "id").is_none());
    assert_eq!(doc.attr(4, "class"), Some("Big  box".to_string()));
}

#[test]
fn classes_match_up_to_ascii_case() {
    let doc = sample();
    assert!(doc.has_class(4, "big"));
    assert!(doc.has_class(4, "BOX"));
    assert!(!doc.has_class(4, "bigbox"));
    assert!(!doc.has_class(1, "a"));
}

/// A list of one picture story posted on "12 Mar".
fn pictures_page(posted: &str) -> Document {
    numbered(vec![
            DomNode { depth: 0, created: 0, kind: NodeKind::Other },
            element(1, "ul", &[]),
            element(2, "li", &[]),
            element(3, "a", &[("href", "/news/p1")]),
            text(4, "Title"),
            element(3, "picture", &[]),
            element(4, "img", &[("src", "a.jpg")]),
            element(3, "section", &[]),
            element(4, "div", &[]),
            text(5, "Posted"),
            element(4, "span", &[("aria-hidden", "true")]),
            text(5, posted),
    ])
}

#[test]
fn picture_stories_are_dated_in_the_given_year() {
    let doc = pictures_page("12 Mar");
    let cs = candidates(&doc);
    assert_eq!(cs.len(), 1);
    assert!(matches!(&cs[0].stamp, Stamp::Day(t) if t == "12 Mar"));
    assert_eq!(cs[0].title, "Title");
    assert_eq!(cs[0].url, "https://www.bbc.co.uk/news/p1");
    assert!(posted_in_range(&doc));
    let mut src = BBCInPictures::new(EntryMap::new());
    src.update_remote_at(&doc, LocalClock { timestamp: 0, nanos: 0, year: 2023 });
    let remote = src.get_remote();
    assert_eq!(remote.groups.len(), 1);
    assert_eq!(remote.groups[0].date, Date { year: 2023, month: 3, day: 12 });
    assert_eq!(remote.groups[0].entries[0].preview_image_url, "a.jpg");
    assert_eq!(remote.groups[0].entries[0].score, 1);
}

#[test]
fn picture_stories_with_unreadable_dates_are_passed_over() {
    let doc = pictures_page("soon");
    assert!(candidates(&doc).is_empty());
    let doc2 = pictures_page("30 Feb");
    let mut src = BBCInPictures::new(EntryMap::new());
    src.update_remote_at(&doc2, LocalClock { timestamp: 0, nanos: 0, year: 2023 });
    assert!(src.get_remote().groups.is_empty());
}

#[test]
fn picture_stories_posted_hours_ago_take_the_local_date_then() {
    let moment = chrono::Local.with_ymd_and_hms(2024, 5, 10, 1, 0, 0).single().unwrap();
    let clock = LocalClock { timestamp: moment.timestamp(), nanos: 0, year: 2024 };
    let doc = pictures_page("2h");
    let mut src = BBCInPictures::new(EntryMap::new());
    src.update_remote_at(&doc, clock);
    let remote = src.get_remote();
    assert_eq!(remote.groups.len(), 1);
    assert_eq!(remote.groups[0].date, Date { year: 2024, month: 5, day: 9 });
    assert_eq!(remote.groups[0].entries[0].title, "Title");
    let later = pictures_page("30min");
    let mut src2 = BBCInPictures::new(EntryMap::new());
    src2.update_remote_at(&later, clock);
    assert_eq!(src2.get_remote().groups[0].date, Date { year: 2024, month: 5, day: 10 });
}

#[test]
fn documents_are_selected_in_creation_order() {
    let mut doc = sample();
    doc.nodes[1].created = 6;
    doc.nodes[6].created = 1;
    assert_eq!(doc.select_doc("div"), vec![6, 4, 1]);
    assert_eq!(doc.select_within(1, "div"), vec![4]);
}

use chrono::Datelike;
use feed_rs::dates::LocalClock;
use feed_rs::source::archaeologynews::ArchaeologyNews;
use feed_rs::source::bbcfuture::{front_page_articles, BBCFuture};
use feed_rs::source::bbcinpictures::{read_stamp, resolve_stamp, BBCInPictures, Stamp};
use feed_rs::source::sciencenews::ScienceNews;
use feed_rs::source::store::EntryMap;
use feed_rs::source::subreddit::{RedditPost, Subreddit};
use feed_rs::source::weekinwildlife::WeekInWildlife;
use feed_rs::source::{Date, Source};

fn d(year: i32, month: u32, day: u32) -> Date {
    Date { year, month, day }
}

#[test]
fn week_in_wildlife_reads_sections() {
    let html = r#"<html><body>
        <section id="5-March-2024"><picture><img src="p.jpg"></picture>
          <a href="/nolabel">x</a><a aria-label="Owls at dusk" href="/environment/owls">Owls</a>
          <a aria-label="Second" href="/environment/second">S</a></section>
        <section id="not a date"><a aria-label="Skipped" href="/s">s</a></section>
        <section><a aria-label="No id" href="/s">s</a></section>
        </body></html>"#;
    let mut src = WeekInWildlife::new(EntryMap::new());
    src.update_from_page(html);
    let remote = src.get_remote();
    assert_eq!(remote.groups.len(), 1);
    assert_eq!(remote.groups[0].date, d(2024, 3, 5));
    assert_eq!(remote.groups[0].entries.len(), 1);
    let e = &remote.groups[0].entries[0];
    assert_eq!(e.title, "Owls at dusk");
    assert_eq!(e.url, "https://www.theguardian.com/environment/owls");
    assert_eq!(e.preview_image_url, "p.jpg");
    assert_eq!(e.score, 1);
}

#[test]
fn science_news_reads_articles() {
    let html = r#"<html><body>
        <article><time>5 Mar 2024</time><a title="Comets" href="/content/article/comets">c</a><img src="c.jpg"></article>
        <article><time>6 Mar 2024</time><a title="No picture" href="/content/article/np">n</a></article>
        <article><time>7 Mar 2024</time><a title="Bad picture" href="/b">n</a><img alt="x"></article>
        <article><time>yesterday</time><a title="Undated" href="/u">u</a></article>
        </body></html>"#;
    let mut src = ScienceNews::new(EntryMap::new());
    src.update_from_page(html);
    let remote = src.get_remote();
    assert_eq!(remote.groups.len(), 2);
    assert_eq!(remote.groups[0].entries[0].title, "Comets");
    assert_eq!(remote.groups[0].entries[0].url, "https://www.science.org/content/article/comets");
    assert_eq!(remote.groups[0].entries[0].preview_image_url, "c.jpg");
    assert_eq!(remote.groups[1].date, d(2024, 3, 6));
    assert_eq!(remote.groups[1].entries[0].preview_image_url, "");
}

#[test]
fn archaeology_news_reads_links_of_the_year() {
    let year = chrono::Utc::now().year();
    let html = format!(
        r#"<html><body><div>
        <article><div><h3><a href="https://archaeology.org/news/{y}/03/05/dig">Dig	found
</a></h3></div><span>Posted</span><span>March 5, {y}</span><img src="dig.jpg"></article>
        <article><div><h3><a href="https://archaeology.org/news/{old}/01/01/old">Old</a></h3></div><span>January 1, {old}</span></article>
        </div></body></html>"#,
        y = year,
        old = year - 1
    );
    let mut src = ArchaeologyNews::new(EntryMap::new());
    src.update_from_page(&html);
    let remote = src.get_remote();
    assert_eq!(remote.groups.len(), 1);
    assert_eq!(remote.groups[0].date, d(year, 3, 5));
    assert_eq!(remote.groups[0].entries.len(), 1);
    let e = &remote.groups[0].entries[0];
    assert_eq!(e.title, "Digfound");
    assert_eq!(e.url, format!("https://archaeology.org/news/{}/03/05/dig", year));
    assert_eq!(e.preview_image_url, "dig.jpg");
}

#[test]
fn bbc_future_lists_article_links_once() {
    let html = r#"<html><body>
        <div><a href="/future/other">o</a><a href="/future/article/20240305-owls">x</a><a href="/future/article/second">y</a></div>
        <div><a href="/future/article/20240305-owls">again</a></div>
        </body></html>"#;
    let urls = front_page_articles(html);
    assert_eq!(urls, vec!["https://www.bbc.co.uk/future/article/20240305-owls".to_string()]);
}

#[test]
fn bbc_future_reads_an_article_page() {
    let html = r#"<html><body><h1>Why owls hoot</h1>
        <div class="Hero-Image"><img src="hero.jpg"></div>
        <div class="author-unit"><span>5th March 2024</span></div>
        </body></html>"#;
    let url = "https://www.bbc.co.uk/future/article/x".to_string();
    let mut src = BBCFuture::new(EntryMap::new());
    src.add_article_page(html, &url);
    let remote = src.get_remote();
    assert_eq!(remote.groups.len(), 1);
    assert_eq!(remote.groups[0].date, d(2024, 3, 5));
    let x = &remote.groups[0].entries[0];
    assert_eq!(x.title, "Why owls hoot");
    assert_eq!(x.preview_image_url, "hero.jpg");
    assert_eq!(x.url, url);
}

#[test]
fn bbc_future_skips_pages_without_title_or_date() {
    let mut src = BBCFuture::new(EntryMap::new());
    src.add_article_page(r#"<div class="author-unit"><span>1st May 2024</span></div>"#, &"u".to_string());
    src.add_article_page(r#"<h1>T</h1><div class="author-unit"><span>soon</span></div>"#, &"v".to_string());
    assert!(src.get_remote().groups.is_empty());
}

#[test]
fn bbc_in_pictures_reads_stamps() {
    assert!(matches!(read_stamp(&"12 Mar".chars().collect()), Some(Stamp::Day(t)) if t == "12 Mar"));
    assert!(matches!(read_stamp(&"5h".chars().collect()), Some(Stamp::Ago { amount: 5, unit: 3600 })));
    assert!(matches!(read_stamp(&"30mins".chars().collect()), Some(Stamp::Ago { amount: 30, unit: 60 })));
    assert!(matches!(read_stamp(&"2d".chars().collect()), Some(Stamp::Ago { amount: 2, unit: 86400 })));
    assert!(read_stamp(&"xh".chars().collect()).is_none());
    assert!(read_stamp(&"now".chars().collect()).is_none());
}

#[test]
fn bbc_in_pictures_dates_stories_by_day() {
    let html = r#"<html><body><ul>
        <li><a href="/news/in-pictures-1"><span>Title</span><span> one</span></a>
            <picture><source srcset="s.webp"><img alt="no source"><img src="a.jpg"></picture>
            <section><div>Posted</div><span aria-hidden="true">12 Mar</span><span>12 March</span></section></li>
        <li><a>no target</a><picture><img src="b.jpg"></picture>
            <section><div>Posted</div><span aria-hidden="true">13 Mar</span></section></li>
        </ul></body></html>"#;
    let year = chrono::Local::now().year();
    let mut src = BBCInPictures::new(EntryMap::new());
    assert!(src.update_from_page(html));
    let remote = src.get_remote();
    assert_eq!(remote.groups.len(), 1);
    assert_eq!(remote.groups[0].date, d(year, 3, 12));
    assert_eq!(remote.groups[0].entries.len(), 1);
    assert_eq!(remote.groups[0].entries[0].url, "https://www.bbc.co.uk/news/in-pictures-1");
    assert_eq!(remote.groups[0].entries[0].preview_image_url, "a.jpg");
    assert_eq!(remote.groups[0].entries[0].title, "Title one");
}

#[test]
fn bbc_in_pictures_dates_recent_stories_from_the_clock() {
    let html = r#"<ul><li><a href="/x">t</a><picture><img src="a.jpg"></picture>
        <section><div>Posted</div><span aria-hidden="true">0h</span></section></li></ul>"#;
    let mut src = BBCInPictures::new(EntryMap::new());
    assert!(src.update_from_page(html));
    assert_eq!(src.get_remote().groups.len(), 1);
    let clock = LocalClock { timestamp: 1709596800, nanos: 0, year: 2024 };
    assert!(resolve_stamp(clock, &Stamp::Ago { amount: 2, unit: 86400 }).is_some());
    assert_eq!(resolve_stamp(clock, &Stamp::Day("1 Jan".to_string())), Some(d(2024, 1, 1)));
    assert_eq!(resolve_stamp(clock, &Stamp::Day("31 Feb".to_string())), None);
}

#[test]
fn bbc_in_pictures_refuses_out_of_range_stamps() {
    let html = r#"<ul><li><a href="/x">t</a><picture><img src="a.jpg"></picture>
        <section><div>Posted</div><span aria-hidden="true">9000000000000000d</span></section></li></ul>"#;
    let mut src = BBCInPictures::new(EntryMap::new());
    assert!(!src.update_from_page(html));
    assert!(src.get_remote().groups.is_empty());
}

#[test]
fn subreddit_records_listing_posts() {
    let mut sub = Subreddit::new(EntryMap::new(), "rust".to_string());
    assert_eq!(sub.name(), "rust");
    assert_eq!(sub.base_url(), "https://www.reddit.com/r/rust/.json");
    let posts = vec![
        RedditPost { permalink: "/r/rust/comments/1/a/".to_string(), title: "A".to_string(), created: 1709596800, ups: 42 },
        RedditPost { permalink: "/r/rust/comments/2/b/".to_string(), title: "B".to_string(), created: i64::MAX, ups: 1 },
    ];
    sub.update_from_listing(&posts);
    let remote = sub.get_remote();
    assert_eq!(remote.groups.len(), 1);
    assert_eq!(remote.groups[0].date, d(2024, 3, 5));
    assert_eq!(remote.groups[0].entries[0].url, "https://reddit.com//r/rust/comments/1/a/");
    assert_eq!(remote.groups[0].entries[0].score, 42);
    assert_eq!(remote.groups[0].entries[0].preview_image_url, "");
}

#[test]
fn archaeology_news_uses_the_current_year() {
    let year = chrono::Utc::now().year();
    let html = format!(
        r#"<div><article><div><h3><a href="https://archaeology.org/news/{y}/01/02/now">Now</a></h3></div><span>January 2, {y}</span></article>
        <article><div><h3><a href="https://archaeology.org/news/1999/01/02/old">Old</a></h3></div><span>January 2, 1999</span></article></div>"#,
        y = year
    );
    let mut src = ArchaeologyNews::new(EntryMap::new());
    src.update_from_page(&html);
    let remote = src.get_remote();
    assert_eq!(remote.groups.len(), 1);
    assert_eq!(remote.groups[0].date, d(year, 1, 2));
    assert_eq!(remote.groups[0].entries[0].title, "Now");
}

#[test]
fn week_in_wildlife_takes_sections_in_the_order_parsed() {
    let html = r#"<html><body><table><tr><td>
        <section id="5-March-2024"><a aria-label="First" href="/a">a</a></section>
        </td></tr>
        <section id="6-March-2024"><a aria-label="Moved" href="/b">b</a></section>
        </table></body></html>"#;
    let mut src = WeekInWildlife::new(EntryMap::new());
    src.update_from_page(html);
    let remote = src.get_remote();
    assert_eq!(remote.groups.len(), 2);
    assert_eq!(remote.groups[0].date, d(2024, 3, 5));
    assert_eq!(remote.groups[1].date, d(2024, 3, 6));
}

#[test]
fn subreddit_dates_cover_chrono_range() {
    let mut sub = Subreddit::new(EntryMap::new(), "edge".to_string());
    let post = |created: i64| RedditPost { permalink: "/p".to_string(), title: "t".to_string(), created, ups: 1 };
    sub.update_from_listing(&vec![post(8210266876799), post(8210266876800), post(-8334601228800), post(-8334601228801), post(-1)]);
    let remote = sub.get_remote();
    assert_eq!(remote.groups.len(), 3);
    assert_eq!(remote.groups[0].date, d(262142, 12, 31));
    assert_eq!(remote.groups[1].date, d(-262143, 1, 1));
    assert_eq!(remote.groups[2].date, d(1969, 12, 31));
}

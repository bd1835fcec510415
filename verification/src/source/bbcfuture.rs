use vstd::prelude::*;

use super::store::{contains_string, map_add, strings_view, EntryMap, EntryMapView};
use super::{Date, DatedEntry, Entry, EntryView, Source};
use crate::dates::{parse_date, parsed_date};
use crate::dom::{parse_document, parsed_document, 
    attr_of, first_of, has_class, select_doc, select_within, texts_of, DocView, Document,
};
use crate::text::{
    is_digit, lemma_remove_all_after_digits, lemma_remove_all_short, lemma_three_tokens, white_space,
    append_chars, chars_of, prefixed, remove_all, remove_all_exec, starts_with, starts_with_exec,
    str_to_string, string_chars, string_of, tokens, tokens_exec,
};

verus! {

/// BBC Future.
pub struct BBCFuture {
    pub remote_entries: EntryMap,
    pub entries: EntryMap,
}

impl BBCFuture {
    /// The source with the entries stored before and no remote entries yet.
    pub fn new(entries: EntryMap) -> (r: BBCFuture)
        ensures
            r.remote_entries@ == Seq::<(Date, Seq<EntryView>)>::empty(),
            r.entries@ == entries@,
    {
        BBCFuture { remote_entries: EntryMap::new(), entries }
    }
}

impl Source for BBCFuture {
    open spec fn name_view(&self) -> Seq<char> {
        "BBCFuture"@
    }

    open spec fn base_url_view(&self) -> Seq<char> {
        "https://www.bbc.co.uk/future"@
    }

    open spec fn remote_view(&self) -> EntryMapView {
        self.remote_entries@
    }

    open spec fn known_view(&self) -> EntryMapView {
        self.entries@
    }

    fn name(&self) -> (r: String) {
        str_to_string("BBCFuture")
    }

    fn base_url(&self) -> (r: String) {
        str_to_string("https://www.bbc.co.uk/future")
    }

    fn get_remote(&self) -> (r: EntryMap) {
        self.remote_entries.clone()
    }

    fn entries(&self) -> (r: EntryMap) {
        self.entries.clone()
    }
}

/// The target of the first link, among the given ones, that leads to an
/// article.
pub open spec fn article_link(d: DocView, links: Seq<usize>) -> Option<Seq<char>>
    decreases links.len(),
{
    if links.len() == 0 {
        None
    } else {
        match attr_of(d, links[0] as int, "href"@) {
            Some(href) => if starts_with(href, "/future/article/"@) {
                Some(href)
            } else {
                article_link(d, links.drop_first())
            },
            None => article_link(d, links.drop_first()),
        }
    }
}

/// The article addresses found in the given blocks: for each block, its
/// first link to an article; each address once, in the order first found.
pub open spec fn article_urls_in(d: DocView, divs: Seq<usize>) -> Seq<Seq<char>>
    decreases divs.len(),
{
    if divs.len() == 0 {
        Seq::empty()
    } else {
        let prev = article_urls_in(d, divs.drop_last());
        match article_link(d, select_within(d, divs.last() as int, "a"@)) {
            Some(href) => {
                let url = "https://www.bbc.co.uk"@ + href;
                if prev.contains(url) {
                    prev
                } else {
                    prev.push(url)
                }
            },
            None => prev,
        }
    }
}

/// The title of an article page: the first text of its first heading.
pub open spec fn page_title(d: DocView) -> Option<Seq<char>> {
    match first_of(select_doc(d, "h1"@)) {
        Some(h) => first_of(texts_of(d, h as int)),
        None => None,
    }
}

/// The day, month and year of a byline, read as `%d %B %Y` once the
/// ordinal suffixes are taken out of the day.
pub open spec fn byline_date(text: Seq<char>) -> Option<Date> {
    let dmy = tokens(text, true);
    if dmy.len() == 3 {
        let day = remove_all(remove_all(remove_all(remove_all(dmy[0], "rd"@), "st"@), "nd"@), "th"@);
        crate::dates::parsed_date(day + seq![' '] + dmy[1] + seq![' '] + dmy[2], "%d %B %Y"@)
    } else {
        None
    }
}

/// Removes the four ordinal suffixes, in turn, from a day written as
/// digits followed by at most two characters.
proof fn lemma_day_without_suffix(day: Seq<char>, suffix: Seq<char>)
    requires
        forall|i: int| 0 <= i < day.len() ==> is_digit(#[trigger] day[i]),
        suffix == "st"@ || suffix == "nd"@ || suffix == "rd"@ || suffix == "th"@ || suffix.len() == 0,
    ensures
        remove_all(remove_all(remove_all(remove_all(day + suffix, "rd"@), "st"@), "nd"@), "th"@) == day,
{
    reveal_strlit("rd");
    reveal_strlit("st");
    reveal_strlit("nd");
    reveal_strlit("th");
    lemma_remove_all_after_digits(day, suffix, "rd"@);
    lemma_remove_all_short(suffix, "rd"@);
    let t1 = if suffix == "rd"@ { Seq::<char>::empty() } else { suffix };
    lemma_remove_all_after_digits(day, t1, "st"@);
    lemma_remove_all_short(t1, "st"@);
    let t2 = if t1 == "st"@ { Seq::<char>::empty() } else { t1 };
    lemma_remove_all_after_digits(day, t2, "nd"@);
    lemma_remove_all_short(t2, "nd"@);
    let t3 = if t2 == "nd"@ { Seq::<char>::empty() } else { t2 };
    lemma_remove_all_after_digits(day, t3, "th"@);
    lemma_remove_all_short(t3, "th"@);
    let t4 = if t3 == "th"@ { Seq::<char>::empty() } else { t3 };
    assert(t4.len() == 0);
    assert(day + t4 =~= day);
}

/// An ordinal suffix on the day of a byline does not change its date: a
/// byline `D<suffix> Month Year`, with the suffix `st`, `nd`, `rd`, `th` or
/// none, reads as the date `D Month Year` in the `%d %B %Y` format.
pub proof fn law_byline_ignores_ordinal_suffix(day: Seq<char>, suffix: Seq<char>, month: Seq<char>, year: Seq<char>)
    requires
        day.len() > 0,
        forall|i: int| 0 <= i < day.len() ==> is_digit(#[trigger] day[i]),
        suffix == "st"@ || suffix == "nd"@ || suffix == "rd"@ || suffix == "th"@ || suffix.len() == 0,
        month.len() > 0,
        year.len() > 0,
        forall|i: int| 0 <= i < month.len() ==> !white_space(#[trigger] month[i]),
        forall|i: int| 0 <= i < year.len() ==> !white_space(#[trigger] year[i]),
    ensures
        byline_date(day + suffix + seq![' '] + month + seq![' '] + year)
            == parsed_date(day + seq![' '] + month + seq![' '] + year, "%d %B %Y"@),
{
    reveal_strlit("rd");
    reveal_strlit("st");
    reveal_strlit("nd");
    reveal_strlit("th");
    let a = day + suffix;
    assert forall|i: int| 0 <= i < a.len() implies !white_space(#[trigger] a[i]) by {
        if i < day.len() {
            assert(a[i] == day[i]);
            assert(is_digit(day[i]));
        } else {
            assert(a[i] == suffix[i - day.len()]);
        }
    }
    lemma_three_tokens(a, month, year);
    lemma_day_without_suffix(day, suffix);
}

/// The picture after looking at one block: the source of the first image
/// of the first `hero-image` block, once found.
pub open spec fn picture_step(d: DocView, div: int, pic: Seq<char>) -> Seq<char> {
    if pic.len() == 0 && has_class(d, div, "hero-image"@) {
        match first_of(select_within(d, div, "img"@)) {
            Some(img) => match attr_of(d, img as int, "src"@) {
                Some(src) => src,
                None => pic,
            },
            None => pic,
        }
    } else {
        pic
    }
}

/// The date after looking at one block: read from the first text of the
/// first span of the first `author-unit` block that yields one.
pub open spec fn date_step(d: DocView, div: int, date: Option<Date>) -> Option<Date> {
    if date is None && has_class(d, div, "author-unit"@) {
        match first_of(select_within(d, div, "span"@)) {
            Some(span) => match first_of(texts_of(d, span as int)) {
                Some(t) => byline_date(t),
                None => None,
            },
            None => None,
        }
    } else {
        date
    }
}

/// The picture and date found by walking the given blocks from the
/// current ones, stopping once both are found.
pub open spec fn page_scan(d: DocView, divs: Seq<usize>, pic: Seq<char>, date: Option<Date>) -> (Seq<char>, Option<Date>)
    decreases divs.len(),
{
    if divs.len() == 0 || (date is Some && pic.len() > 0) {
        (pic, date)
    } else {
        page_scan(
            d,
            divs.drop_first(),
            picture_step(d, divs[0] as int, pic),
            date_step(d, divs[0] as int, date),
        )
    }
}

/// The entry an article page at `url` gives: its title, its hero picture
/// and its byline date; none without a title or a date.
pub open spec fn page_entry(d: DocView, url: Seq<char>) -> Option<(Date, EntryView)> {
    match page_title(d) {
        Some(title) => {
            let (pic, date) = page_scan(d, select_doc(d, "div"@), Seq::empty(), None);
            match date {
                Some(date) => Some(
                    (date, EntryView { title, url, preview_image_url: pic, score: 1 }),
                ),
                None => None,
            }
        },
        None => None,
    }
}

/// The target of the first of the given links that leads to an article.
fn first_article_link(document: &Document, links: &Vec<usize>, prefix: &Vec<char>) -> (r: Option<String>)
    requires
        prefix@ == "/future/article/"@,
        forall|q: int| 0 <= q < links@.len() ==> #[trigger] links@[q] < document@.len(),
    ensures
        match r {
            Some(h) => article_link(document@, links@) == Some(h@),
            None => article_link(document@, links@) is None,
        },
{
    let ghost lv = links@;
    let mut j: usize = 0;
    assert(lv.skip(0) =~= lv);
    while j < links.len()
        invariant
            lv == links@,
            j <= links.len(),
            prefix@ == "/future/article/"@,
            forall|q: int| 0 <= q < links@.len() ==> #[trigger] links@[q] < document@.len(),
            article_link(document@, lv) == article_link(document@, lv.skip(j as int)),
        decreases links.len() - j,
    {
        assert(lv.skip(j as int).drop_first() =~= lv.skip(j + 1));
        assert(lv.skip(j as int)[0] == links@[j as int]);
        match document.attr(links[j], "href") {
            Some(href) => {
                let hc = string_chars(&href);
                if starts_with_exec(&hc, prefix) {
                    return Some(href);
                }
            },
            None => {},
        }
        j += 1;
    }
    None
}

/// The article addresses a front page links to, each once.
pub fn article_urls(document: &Document) -> (r: Vec<String>)
    ensures
        strings_view(r@) == article_urls_in(document@, select_doc(document@, "div"@)),
{
    let divs = document.select_doc("div");
    let ghost dv = divs@;
    let prefix = chars_of("/future/article/");
    let mut urls: Vec<String> = Vec::new();
    let mut i: usize = 0;
    while i < divs.len()
        invariant
            dv == divs@,
            i <= divs.len(),
            prefix@ == "/future/article/"@,
            forall|q: int| 0 <= q < divs@.len() ==> #[trigger] divs@[q] < document@.len(),
            strings_view(urls@) == article_urls_in(document@, dv.take(i as int)),
        decreases divs.len() - i,
    {
        assert(dv.take(i + 1).drop_last() =~= dv.take(i as int));
        assert(dv.take(i + 1).last() == dv[i as int]);
        let links = document.select_within(divs[i], "a");
        let found = first_article_link(document, &links, &prefix);
        match found {
            Some(href) => {
                let url = prefixed("https://www.bbc.co.uk", &href);
                if !contains_string(&urls, &url) {
                    let ghost before = urls@;
                    urls.push(url);
                    assert(strings_view(urls@) =~= strings_view(before).push(url@));
                }
            },
            None => {},
        }
        i += 1;
    }
    assert(dv.take(i as int) =~= dv);
    urls
}

/// The date of a byline text.
fn read_byline(text: &String) -> (r: Option<Date>)
    ensures
        r == byline_date(text@),
{
    let cs = string_chars(text);
    let dmy = tokens_exec(&cs, true);
    let ghost tv = dmy@.map_values(|t: Vec<char>| t@);
    if dmy.len() != 3 {
        return None;
    }
    assert(tv[0] == dmy@[0]@ && tv[1] == dmy@[1]@ && tv[2] == dmy@[2]@);
    let a = remove_all_exec(&dmy[0], &chars_of("rd"));
    let b = remove_all_exec(&a, &chars_of("st"));
    let c = remove_all_exec(&b, &chars_of("nd"));
    let mut day = remove_all_exec(&c, &chars_of("th"));
    day.push(' ');
    append_chars(&mut day, &dmy[1]);
    day.push(' ');
    append_chars(&mut day, &dmy[2]);
    let sdate = string_of(&day);
    let ghost d0 = remove_all(remove_all(remove_all(remove_all(tv[0], "rd"@), "st"@), "nd"@), "th"@);
    assert(sdate@ =~= d0 + seq![' '] + tv[1] + seq![' '] + tv[2]);
    crate::dates::parse_date(sdate.as_str(), "%d %B %Y")
}

/// The entry an article page at `url` gives.
pub fn page_entry_of(page: &Document, url: &String) -> (r: Option<DatedEntry>)
    ensures
        match r {
            Some(x) => page_entry(page@, url@) == Some(x@),
            None => page_entry(page@, url@) is None,
        },
{
    let title = match page.select_doc("h1").first() {
        Some(h) => {
            let texts = page.texts(*h);
            if texts.len() == 0 {
                return None;
            }
            texts[0].clone()
        },
        None => return None,
    };
    let divs = page.select_doc("div");
    let ghost dv = divs@;
    let mut pic = String::new();
    let mut date: Option<Date> = None;
    let mut k: usize = 0;
    assert(dv.skip(0) =~= dv);
    while k < divs.len()
        invariant
            dv == divs@,
            k <= divs.len(),
            forall|q: int| 0 <= q < divs@.len() ==> #[trigger] divs@[q] < page@.len(),
            page_scan(page@, dv, Seq::empty(), None) == page_scan(page@, dv.skip(k as int), pic@, date),
        ensures
            page_scan(page@, dv, Seq::empty(), None) == (pic@, date),
        decreases divs.len() - k,
    {
        if date.is_some() && !pic.as_str().is_empty() {
            assert(page_scan(page@, dv.skip(k as int), pic@, date) == (pic@, date));
            break;
        }
        let div = divs[k];
        assert(dv.skip(k as int).drop_first() =~= dv.skip(k + 1));
        assert(dv.skip(k as int)[0] == div);
        let ghost old_pic = pic@;
        let ghost old_date = date;
        if pic.as_str().is_empty() && page.has_class(div, "hero-image") {
            match page.first_within(div, "img") {
                Some(img) => match page.attr(img, "src") {
                    Some(src) => {
                        pic = src;
                    },
                    None => {},
                },
                None => {},
            }
        }
        assert(pic@ == picture_step(page@, div as int, old_pic));
        if date.is_none() && page.has_class(div, "author-unit") {
            date = match page.first_within(div, "span") {
                Some(span) => {
                    let texts = page.texts(span);
                    if texts.len() > 0 {
                        read_byline(&texts[0])
                    } else {
                        None
                    }
                },
                None => None,
            };
        }
        assert(date == date_step(page@, div as int, old_date));
        k += 1;
    }
    match date {
        Some(d) => Some(DatedEntry {
            entry: Entry { title, url: url.clone(), preview_image_url: pic, score: 1 },
            date: d,
        }),
        None => None,
    }
}

impl BBCFuture {
    /// Records the entry an article page at `url` gives, if any.
    pub fn add_article(&mut self, page: &Document, url: &String)
        ensures
            final(self).remote_entries@ == (match page_entry(page@, url@) {
                Some(x) => map_add(old(self).remote_entries@, x.0, x.1),
                None => old(self).remote_entries@,
            }),
            final(self).entries@ == old(self).entries@,
    {
        match page_entry_of(page, url) {
            Some(x) => self.remote_entries.add(x.date, x.entry),
            None => {},
        }
    }
}

/// The article addresses a front page, given as HTML text, links to.
pub fn front_page_articles(html: &str) -> (r: Vec<String>)
    ensures
        strings_view(r@) == article_urls_in(parsed_document(html@), select_doc(parsed_document(html@), "div"@)),
{
    let document = parse_document(html);
    article_urls(&document)
}

impl BBCFuture {
    /// Records the entry an article page at `url`, given as HTML text,
    /// gives, if any.
    pub fn add_article_page(&mut self, html: &str, url: &String)
        ensures
            final(self).remote_entries@ == (match page_entry(parsed_document(html@), url@) {
                Some(x) => map_add(old(self).remote_entries@, x.0, x.1),
                None => old(self).remote_entries@,
            }),
            final(self).entries@ == old(self).entries@,
    {
        let page = parse_document(html);
        self.add_article(&page, url);
    }
}

} // verus!

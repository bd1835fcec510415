use vstd::prelude::*;

use super::store::{map_add_all, EntryMap, EntryMapView};
use super::{Date, DatedEntry, Entry, EntryView, Source};
use crate::dates::{current_utc_year, parse_date, parsed_date};
use crate::dom::{parse_document, parsed_document, 
    attr_of, first_of, parent_element, select_doc, select_within, texts_of, DocView, Document,
};
use crate::text::{
    append_chars, chars_of, contains_seq, decimal, decimal_exec, find_first, join, join_exec,
    remove_all, remove_all_exec, split_char, split_char_exec, starts_with, starts_with_exec,
    str_to_string, string_chars, string_of,
};
use super::store::{contains_string, strings_view};

verus! {

/// Archaeology magazine's news.
pub struct ArchaeologyNews {
    pub remote_entries: EntryMap,
    pub entries: EntryMap,
}

impl ArchaeologyNews {
    /// The source with the entries stored before and no remote entries yet.
    pub fn new(entries: EntryMap) -> (r: ArchaeologyNews)
        ensures
            r.remote_entries@ == Seq::<(Date, Seq<EntryView>)>::empty(),
            r.entries@ == entries@,
    {
        ArchaeologyNews { remote_entries: EntryMap::new(), entries }
    }
}

impl Source for ArchaeologyNews {
    open spec fn name_view(&self) -> Seq<char> {
        "ArchaeologyNews"@
    }

    open spec fn base_url_view(&self) -> Seq<char> {
        "https://archaeology.org/news/"@
    }

    open spec fn remote_view(&self) -> EntryMapView {
        self.remote_entries@
    }

    open spec fn known_view(&self) -> EntryMapView {
        self.entries@
    }

    fn name(&self) -> (r: String) {
        str_to_string("ArchaeologyNews")
    }

    fn base_url(&self) -> (r: String) {
        str_to_string("https://archaeology.org/news/")
    }

    fn get_remote(&self) -> (r: EntryMap) {
        self.remote_entries.clone()
    }

    fn entries(&self) -> (r: EntryMap) {
        self.entries.clone()
    }
}

/// The date an article shows: the first line, among the texts of its
/// spans in order, that reads as `%B %d, %Y`.
pub open spec fn date_in_lines(lines: Seq<Seq<char>>) -> Option<Date>
    decreases lines.len(),
{
    if lines.len() == 0 {
        None
    } else {
        match parsed_date(lines[0], "%B %d, %Y"@) {
            Some(date) => Some(date),
            None => date_in_lines(lines.drop_first()),
        }
    }
}

/// The lines of the text of a span.
pub open spec fn span_lines(d: DocView, span: int) -> Seq<Seq<char>> {
    split_char(join(texts_of(d, span), Seq::empty()), '\n')
}

/// The first date found in the given spans.
pub open spec fn date_in_spans(d: DocView, spans: Seq<usize>) -> Option<Date>
    decreases spans.len(),
{
    if spans.len() == 0 {
        None
    } else {
        match date_in_lines(span_lines(d, spans[0] as int)) {
            Some(date) => Some(date),
            None => date_in_spans(d, spans.drop_first()),
        }
    }
}

/// The date of an article (`extract_date`).
pub open spec fn article_date(d: DocView, article: int) -> Option<Date> {
    date_in_spans(d, select_within(d, article, "span"@))
}

/// The picture of an article: the source of its first image, unless it is
/// the magazine's logo.
pub open spec fn archaeology_picture(d: DocView, article: int) -> Seq<char> {
    match first_of(select_within(d, article, "img"@)) {
        Some(img) => match attr_of(d, img as int, "src"@) {
            Some(src) => if contains_seq(src, "Archaeology-Magazine-Logo-Square"@) {
                Seq::empty()
            } else {
                src
            },
            None => Seq::empty(),
        },
        None => Seq::empty(),
    }
}

/// The element three levels above a link: the article around it.
pub open spec fn link_article(d: DocView, link: int) -> Option<int> {
    match parent_element(d, link) {
        Some(p1) => match parent_element(d, p1) {
            Some(p2) => parent_element(d, p2),
            None => None,
        },
        None => None,
    }
}

/// The news pages of a year: links starting with this prefix.
pub open spec fn news_prefix(year: i32) -> Seq<char> {
    "https://archaeology.org/news/"@ + decimal(year as int)
}

/// The title of a link: its texts joined, without line feeds and tabs.
pub open spec fn link_title(d: DocView, link: int) -> Seq<char> {
    remove_all(remove_all(join(texts_of(d, link), Seq::empty()), "\n"@), "\t"@)
}

/// The entry a link to `href` announces, when `href` is a news page of
/// `year` and the article around the link shows a date.
pub open spec fn archaeology_entry(d: DocView, link: int, href: Seq<char>, year: i32) -> Option<(Date, EntryView)> {
    if starts_with(href, news_prefix(year)) {
        match link_article(d, link) {
            Some(article) => match article_date(d, article) {
                Some(date) => Some(
                    (
                        date,
                        EntryView {
                            title: link_title(d, link),
                            url: href,
                            preview_image_url: archaeology_picture(d, article),
                            score: 1,
                        },
                    ),
                ),
                None => None,
            },
            None => None,
        }
    } else {
        None
    }
}

/// The targets of the given links that have one.
pub open spec fn hrefs_of(d: DocView, links: Seq<usize>) -> Set<Seq<char>> {
    Set::new(|h: Seq<char>| exists|i: int| 0 <= i < links.len() && attr_of(d, #[trigger] links[i] as int, "href"@) == Some(h))
}

/// The entries announced by the given links, in order; a link whose target
/// an earlier link had is passed over.
pub open spec fn archaeology_entries(d: DocView, links: Seq<usize>, year: i32) -> Seq<(Date, EntryView)>
    decreases links.len(),
{
    if links.len() == 0 {
        Seq::empty()
    } else {
        let prev = archaeology_entries(d, links.drop_last(), year);
        match attr_of(d, links.last() as int, "href"@) {
            Some(href) => if hrefs_of(d, links.drop_last()).contains(href) {
                prev
            } else {
                match archaeology_entry(d, links.last() as int, href, year) {
                    Some(x) => prev.push(x),
                    None => prev,
                }
            },
            None => prev,
        }
    }
}

/// The links inside each of the given blocks, block after block.
pub open spec fn links_in(d: DocView, divs: Seq<usize>) -> Seq<usize>
    decreases divs.len(),
{
    if divs.len() == 0 {
        Seq::empty()
    } else {
        links_in(d, divs.drop_last()) + select_within(d, divs.last() as int, "a"@)
    }
}

/// The links of a page, block after block, as the page is walked.
pub open spec fn page_links(d: DocView) -> Seq<usize> {
    links_in(d, select_doc(d, "div"@))
}

/// The magazine's logo is never a preview: no entry of a news page has a
/// preview image whose address contains `Archaeology-Magazine-Logo-Square`.
pub proof fn law_logo_is_no_preview(d: DocView, links: Seq<usize>, year: i32)
    ensures
        forall|i: int|
            0 <= i < archaeology_entries(d, links, year).len() ==> !contains_seq(
                #[trigger] archaeology_entries(d, links, year)[i].1.preview_image_url,
                "Archaeology-Magazine-Logo-Square"@,
            ),
    decreases links.len(),
{
    reveal_strlit("Archaeology-Magazine-Logo-Square");
    let logo = "Archaeology-Magazine-Logo-Square"@;
    assert(!contains_seq(Seq::<char>::empty(), logo));
    if links.len() > 0 {
        law_logo_is_no_preview(d, links.drop_last(), year);
        let prev = archaeology_entries(d, links.drop_last(), year);
        let all = archaeology_entries(d, links, year);
        assert forall|i: int| 0 <= i < all.len() implies !contains_seq(#[trigger] all[i].1.preview_image_url, logo) by {
            if i < prev.len() {
                assert(all[i] == prev[i]);
            } else {
                let link = links.last() as int;
                let href = attr_of(d, link, "href"@)->0;
                let article = link_article(d, link)->0;
                assert(all[i].1.preview_image_url == archaeology_picture(d, article));
            }
        }
    }
}

/// The date shown by an article.
#[verifier::loop_isolation(false)]
pub fn extract_date(doc: &Document, article: usize) -> (r: Option<Date>)
    requires
        article < doc@.len(),
    ensures
        r == article_date(doc@, article as int),
{
    let spans = doc.select_within(article, "span");
    let ghost sv = spans@;
    let mut k: usize = 0;
    assert(sv.skip(0) =~= sv);
    let empty: Vec<char> = Vec::new();
    while k < spans.len()
        invariant
            sv == spans@,
            k <= spans.len(),
            empty@ == Seq::<char>::empty(),
            date_in_spans(doc@, sv) == date_in_spans(doc@, sv.skip(k as int)),
        decreases spans.len() - k,
    {
        assert(sv.skip(k as int).drop_first() =~= sv.skip(k + 1));
        assert(sv.skip(k as int)[0] == spans[k as int]);
        let texts = doc.texts(spans[k]);
        let text = join_exec(&texts, &empty);
        let lines = split_char_exec(&text, '\n');
        let ghost lv = lines@.map_values(|t: Vec<char>| t@);
        assert(lv == span_lines(doc@, spans@[k as int] as int));
        let mut j: usize = 0;
        assert(lv.skip(0) =~= lv);
        while j < lines.len()
            invariant
                lv == lines@.map_values(|t: Vec<char>| t@),
                j <= lines.len(),
                date_in_lines(lv) == date_in_lines(lv.skip(j as int)),
            decreases lines.len() - j,
        {
            assert(lv.skip(j as int).drop_first() =~= lv.skip(j + 1));
            assert(lv.skip(j as int)[0] == lines@[j as int]@);
            let line = string_of(&lines[j]);
            match parse_date(line.as_str(), "%B %d, %Y") {
                Some(d) => return Some(d),
                None => {},
            }
            j += 1;
        }
        k += 1;
    }
    None
}

/// The picture of an article.
fn article_picture(doc: &Document, article: usize) -> (r: String)
    requires
        article < doc@.len(),
    ensures
        r@ == archaeology_picture(doc@, article as int),
{
    match doc.first_within(article, "img") {
        Some(img) => match doc.attr(img, "src") {
            Some(src) => {
                let cs = string_chars(&src);
                let logo = chars_of("Archaeology-Magazine-Logo-Square");
                match find_first(&cs, &logo) {
                    Some(_) => String::new(),
                    None => src,
                }
            },
            None => String::new(),
        },
        None => String::new(),
    }
}

/// The entry a link to `href` announces.
fn link_entry(doc: &Document, link: usize, href: &String, prefix: &Vec<char>, Ghost(year): Ghost<i32>) -> (r: Option<DatedEntry>)
    requires
        link < doc@.len(),
        prefix@ == news_prefix(year),
    ensures
        match r {
            Some(x) => archaeology_entry(doc@, link as int, href@, year) == Some(x@),
            None => archaeology_entry(doc@, link as int, href@, year) is None,
        },
{
    let hc = string_chars(href);
    if !starts_with_exec(&hc, prefix) {
        return None;
    }
    let texts = doc.texts(link);
    let empty: Vec<char> = Vec::new();
    let joined = join_exec(&texts, &empty);
    let no_lf = remove_all_exec(&joined, &chars_of("\n"));
    let title_chars = remove_all_exec(&no_lf, &chars_of("\t"));
    let p1 = match doc.parent_element(link) {
        Some(p) => p,
        None => return None,
    };
    let p2 = match doc.parent_element(p1) {
        Some(p) => p,
        None => return None,
    };
    let article = match doc.parent_element(p2) {
        Some(p) => p,
        None => return None,
    };
    let date = match extract_date(doc, article) {
        Some(d) => d,
        None => return None,
    };
    let picture_url = article_picture(doc, article);
    let title = string_of(&title_chars);
    Some(DatedEntry { entry: Entry { title, url: href.clone(), preview_image_url: picture_url, score: 1 }, date })
}

impl ArchaeologyNews {
    /// Records the entries a news page announces for the given year: each
    /// link, taken block by block and once per target, to a news page of
    /// that year inside an article that shows a date.
    pub fn update_remote_for_year(&mut self, document: &Document, year: i32)
        ensures
            final(self).remote_entries@ == map_add_all(
                old(self).remote_entries@,
                archaeology_entries(document@, page_links(document@), year),
            ),
            final(self).entries@ == old(self).entries@,
    {
        let mut prefix = chars_of("https://archaeology.org/news/");
        let digits = decimal_exec(year);
        append_chars(&mut prefix, &digits);
        let divs = document.select_doc("div");
        let ghost dv = divs@;
        let mut seen: Vec<String> = Vec::new();
        let mut i: usize = 0;
        while i < divs.len()
            invariant
                dv == divs@,
                i <= divs.len(),
                prefix@ == news_prefix(year),
                forall|q: int| 0 <= q < divs@.len() ==> #[trigger] divs@[q] < document@.len(),
                forall|h: Seq<char>| #[trigger] strings_view(seen@).contains(h) <==> hrefs_of(document@, links_in(document@, dv.take(i as int))).contains(h),
                self.remote_entries@ == map_add_all(
                    old(self).remote_entries@,
                    archaeology_entries(document@, links_in(document@, dv.take(i as int)), year),
                ),
                self.entries@ == old(self).entries@,
            decreases divs.len() - i,
        {
            let links = document.select_within(divs[i], "a");
            let ghost lv = links@;
            let ghost base = links_in(document@, dv.take(i as int));
            assert(dv.take(i + 1).drop_last() =~= dv.take(i as int));
            assert(links_in(document@, dv.take(i + 1)) == base + lv);
            let mut j: usize = 0;
            assert(base + lv.take(0) =~= base);
            while j < links.len()
                invariant
                    lv == links@,
                    j <= links.len(),
                    prefix@ == news_prefix(year),
                    forall|q: int| 0 <= q < links@.len() ==> #[trigger] links@[q] < document@.len(),
                    forall|h: Seq<char>| #[trigger] strings_view(seen@).contains(h) <==> hrefs_of(document@, base + lv.take(j as int)).contains(h),
                    self.remote_entries@ == map_add_all(
                        old(self).remote_entries@,
                        archaeology_entries(document@, base + lv.take(j as int), year),
                    ),
                    self.entries@ == old(self).entries@,
                decreases links.len() - j,
            {
                let link = links[j];
                let ghost pre = base + lv.take(j as int);
                let ghost now = base + lv.take(j + 1);
                assert(now =~= pre.push(link));
                assert(now.drop_last() =~= pre);
                let ghost old_seen = strings_view(seen@);
                let ghost prev = archaeology_entries(document@, pre, year);
                proof {
                    assert forall|h: Seq<char>| #[trigger] hrefs_of(document@, now).contains(h) <==> (hrefs_of(document@, pre).contains(h) || attr_of(document@, link as int, "href"@) == Some(h)) by {
                        if hrefs_of(document@, now).contains(h) {
                            let q = choose|q: int| 0 <= q < now.len() && attr_of(document@, #[trigger] now[q] as int, "href"@) == Some(h);
                            if q < pre.len() {
                                assert(pre[q] == now[q]);
                            }
                        }
                        if hrefs_of(document@, pre).contains(h) {
                            let q = choose|q: int| 0 <= q < pre.len() && attr_of(document@, #[trigger] pre[q] as int, "href"@) == Some(h);
                            assert(now[q] == pre[q]);
                        }
                        if attr_of(document@, link as int, "href"@) == Some(h) {
                            assert(now[pre.len() as int] == link);
                        }
                    }
                }
                match document.attr(link, "href") {
                    Some(href) => {
                        if !contains_string(&seen, &href) {
                            let ghost before = seen@;
                            seen.push(href.clone());
                            assert(strings_view(seen@) =~= strings_view(before).push(href@));
                            proof {
                                assert forall|h: Seq<char>| #[trigger] strings_view(seen@).contains(h) <==> (old_seen.contains(h) || h == href@) by {
                                    if strings_view(seen@).contains(h) && h != href@ {
                                        let q = choose|q: int| 0 <= q < strings_view(seen@).len() && strings_view(seen@)[q] == h;
                                        assert(old_seen[q] == h);
                                    }
                                    if old_seen.contains(h) {
                                        let q = choose|q: int| 0 <= q < old_seen.len() && old_seen[q] == h;
                                        assert(strings_view(seen@)[q] == h);
                                    }
                                    if h == href@ {
                                        assert(strings_view(seen@)[old_seen.len() as int] == h);
                                    }
                                }
                            }
                            match link_entry(document, link, &href, &prefix, Ghost(year)) {
                                Some(x) => {
                                    assert(prev.push(x@).drop_last() =~= prev);
                                    self.remote_entries.add(x.date, x.entry);
                                },
                                None => {},
                            }
                        }
                    },
                    None => {},
                }
                j += 1;
            }
            assert(lv.take(j as int) =~= lv);
            i += 1;
        }
        assert(dv.take(i as int) =~= dv);
    }

    /// Records the entries a news page announces for the current year (in
    /// UTC, read from the clock).
    pub fn update_remote(&mut self, document: &Document)
        ensures
            exists|year: i32|
                1970 <= year <= 262142 && final(self).remote_entries@ == map_add_all(
                    old(self).remote_entries@,
                    #[trigger] archaeology_entries(document@, page_links(document@), year),
                ),
            final(self).entries@ == old(self).entries@,
    {
        let year = current_utc_year();
        self.update_remote_for_year(document, year);
    }
}

impl ArchaeologyNews {
    /// Records the entries of a news page, given as HTML text, for the
    /// current year.
    pub fn update_from_page(&mut self, html: &str)
        ensures
            exists|year: i32|
                1970 <= year <= 262142 && final(self).remote_entries@ == map_add_all(
                    old(self).remote_entries@,
                    #[trigger] archaeology_entries(parsed_document(html@), page_links(parsed_document(html@)), year),
                ),
            final(self).entries@ == old(self).entries@,
    {
        let document = parse_document(html);
        self.update_remote(&document);
    }
}

} // verus!

use vstd::prelude::*;

use super::store::{map_add_all, EntryMap, EntryMapView};
use super::{Date, DatedEntry, Entry, EntryView, Source};
use crate::dates::{parse_date, parsed_date};
use crate::dom::{parse_document, parsed_document, attr_of, first_of, select_doc, select_within, texts_of, DocView, Document};
use crate::text::{prefixed, str_to_string};

verus! {

/// Science's news feed.
pub struct ScienceNews {
    pub remote_entries: EntryMap,
    pub entries: EntryMap,
}

impl ScienceNews {
    /// The source with the entries stored before and no remote entries yet.
    pub fn new(entries: EntryMap) -> (r: ScienceNews)
        ensures
            r.remote_entries@ == Seq::<(Date, Seq<EntryView>)>::empty(),
            r.entries@ == entries@,
    {
        ScienceNews { remote_entries: EntryMap::new(), entries }
    }
}

impl Source for ScienceNews {
    open spec fn name_view(&self) -> Seq<char> {
        "ScienceNews"@
    }

    open spec fn base_url_view(&self) -> Seq<char> {
        "https://www.science.org/news/all-news"@
    }

    open spec fn remote_view(&self) -> EntryMapView {
        self.remote_entries@
    }

    open spec fn known_view(&self) -> EntryMapView {
        self.entries@
    }

    fn name(&self) -> (r: String) {
        str_to_string("ScienceNews")
    }

    fn base_url(&self) -> (r: String) {
        str_to_string("https://www.science.org/news/all-news")
    }

    fn get_remote(&self) -> (r: EntryMap) {
        self.remote_entries.clone()
    }

    fn entries(&self) -> (r: EntryMap) {
        self.entries.clone()
    }
}

/// The picture of an article: `Some` source of its first image, the empty
/// URL when it has no image, and `None` when its first image has no source
/// (the article is then skipped).
pub open spec fn science_picture(d: DocView, article: int) -> Option<Seq<char>> {
    match first_of(select_within(d, article, "img"@)) {
        Some(img) => attr_of(d, img as int, "src"@),
        None => Some(Seq::empty()),
    }
}

/// The entry an article announces: its date is the first text of its first
/// `time` read as `%d %b %Y`, its title and link are the `title` and `href`
/// of its first link.
pub open spec fn science_entry(d: DocView, article: int) -> Option<(Date, EntryView)> {
    match first_of(select_within(d, article, "time"@)) {
        Some(t) => match first_of(texts_of(d, t as int)) {
            Some(sdate) => match parsed_date(sdate, "%d %b %Y"@) {
                Some(date) => match first_of(select_within(d, article, "a"@)) {
                    Some(a) => match (attr_of(d, a as int, "title"@), attr_of(d, a as int, "href"@)) {
                        (Some(title), Some(href)) => match science_picture(d, article) {
                            Some(pic) => Some(
                                (
                                    date,
                                    EntryView {
                                        title,
                                        url: "https://www.science.org"@ + href,
                                        preview_image_url: pic,
                                        score: 1,
                                    },
                                ),
                            ),
                            None => None,
                        },
                        _ => None,
                    },
                    None => None,
                },
                None => None,
            },
            None => None,
        },
        None => None,
    }
}

/// The entries announced by the given articles, in order.
pub open spec fn science_entries(d: DocView, articles: Seq<usize>) -> Seq<(Date, EntryView)>
    decreases articles.len(),
{
    if articles.len() == 0 {
        Seq::empty()
    } else {
        let p = science_entries(d, articles.drop_last());
        match science_entry(d, articles.last() as int) {
            Some(x) => p.push(x),
            None => p,
        }
    }
}

/// The entry an article announces.
pub fn article_entry(doc: &Document, article: usize) -> (r: Option<DatedEntry>)
    requires
        article < doc@.len(),
    ensures
        match r {
            Some(x) => science_entry(doc@, article as int) == Some(x@),
            None => science_entry(doc@, article as int) is None,
        },
{
    let t = match doc.first_within(article, "time") {
        Some(t) => t,
        None => return None,
    };
    let texts = doc.texts(t);
    if texts.len() == 0 {
        return None;
    }
    let sdate = &texts[0];
    assert(first_of(texts_of(doc@, t as int)) == Some(sdate@));
    let date = match parse_date(sdate.as_str(), "%d %b %Y") {
        Some(d) => d,
        None => return None,
    };
    let a = match doc.first_within(article, "a") {
        Some(a) => a,
        None => return None,
    };
    let title = match doc.attr(a, "title") {
        Some(title) => title,
        None => return None,
    };
    let link = match doc.attr(a, "href") {
        Some(href) => href,
        None => return None,
    };
    let picture_url = match doc.first_within(article, "img") {
        Some(img) => match doc.attr(img, "src") {
            Some(src) => src,
            None => return None,
        },
        None => String::new(),
    };
    let url = prefixed("https://www.science.org", &link);
    Some(DatedEntry { entry: Entry { title, url, preview_image_url: picture_url, score: 1 }, date })
}

impl ScienceNews {
    /// Records the entries a news page announces, one per article that
    /// has a readable date, a titled link and, if it has an image, one with
    /// a source.
    pub fn update_remote(&mut self, document: &Document)
        ensures
            final(self).remote_entries@ == map_add_all(
                old(self).remote_entries@,
                science_entries(document@, select_doc(document@, "article"@)),
            ),
            final(self).entries@ == old(self).entries@,
    {
        let articles = document.select_doc("article");
        let ghost sv = articles@;
        let mut k: usize = 0;
        while k < articles.len()
            invariant
                sv == articles@,
                k <= articles.len(),
                forall|q: int| 0 <= q < articles@.len() ==> #[trigger] articles@[q] < document@.len(),
                self.remote_entries@ == map_add_all(
                    old(self).remote_entries@,
                    science_entries(document@, sv.take(k as int)),
                ),
                self.entries@ == old(self).entries@,
            decreases articles.len() - k,
        {
            assert(sv.take(k + 1).drop_last() =~= sv.take(k as int));
            assert(sv.take(k + 1).last() == sv[k as int]);
            let ghost prev = science_entries(document@, sv.take(k as int));
            match article_entry(document, articles[k]) {
                Some(x) => {
                    assert(prev.push(x@).drop_last() =~= prev);
                    self.remote_entries.add(x.date, x.entry);
                },
                None => {},
            }
            k += 1;
        }
        assert(sv.take(k as int) =~= sv);
    }
}

impl ScienceNews {
    /// Records the entries of a news page, given as HTML text.
    pub fn update_from_page(&mut self, html: &str)
        ensures
            final(self).remote_entries@ == map_add_all(
                old(self).remote_entries@,
                science_entries(parsed_document(html@), select_doc(parsed_document(html@), "article"@)),
            ),
            final(self).entries@ == old(self).entries@,
    {
        let document = parse_document(html);
        self.update_remote(&document);
    }
}

} // verus!

use vstd::prelude::*;

use super::store::{map_add_all, EntryMap, EntryMapView};
use super::{Date, DatedEntry, Entry, EntryView, Source};
use crate::dates::{parse_date, parsed_date};
use crate::dom::{parse_document, parsed_document, attr_of, first_of, id_of, select_doc, select_within, DocView, Document};
use crate::text::{prefixed, str_to_string};

verus! {

/// The Guardian's "Week in wildlife" series.
pub struct WeekInWildlife {
    pub remote_entries: EntryMap,
    pub entries: EntryMap,
}

impl WeekInWildlife {
    /// The source with the entries stored before and no remote entries yet.
    pub fn new(entries: EntryMap) -> (r: WeekInWildlife)
        ensures
            r.remote_entries@ == Seq::<(Date, Seq<EntryView>)>::empty(),
            r.entries@ == entries@,
    {
        WeekInWildlife { remote_entries: EntryMap::new(), entries }
    }
}

impl Source for WeekInWildlife {
    open spec fn name_view(&self) -> Seq<char> {
        "WeekInWildlife"@
    }

    open spec fn base_url_view(&self) -> Seq<char> {
        "https://www.theguardian.com/environment/series/weekinwildlife"@
    }

    open spec fn remote_view(&self) -> EntryMapView {
        self.remote_entries@
    }

    open spec fn known_view(&self) -> EntryMapView {
        self.entries@
    }

    fn name(&self) -> (r: String) {
        str_to_string("WeekInWildlife")
    }

    fn base_url(&self) -> (r: String) {
        str_to_string("https://www.theguardian.com/environment/series/weekinwildlife")
    }

    fn get_remote(&self) -> (r: EntryMap) {
        self.remote_entries.clone()
    }

    fn entries(&self) -> (r: EntryMap) {
        self.entries.clone()
    }
}

/// The picture of a section: the source of the first image of its first
/// picture, or the empty URL.
pub open spec fn wildlife_picture(d: DocView, section: int) -> Seq<char> {
    match first_of(select_within(d, section, "picture"@)) {
        Some(p) => match first_of(select_within(d, p as int, "img"@)) {
            Some(img) => match attr_of(d, img as int, "src"@) {
                Some(src) => src,
                None => Seq::empty(),
            },
            None => Seq::empty(),
        },
        None => Seq::empty(),
    }
}

/// The label and target of the first link that has both.
pub open spec fn first_labeled_link(d: DocView, links: Seq<usize>) -> Option<(Seq<char>, Seq<char>)>
    decreases links.len(),
{
    if links.len() == 0 {
        None
    } else {
        match (attr_of(d, links[0] as int, "aria-label"@), attr_of(d, links[0] as int, "href"@)) {
            (Some(title), Some(href)) => Some((title, href)),
            _ => first_labeled_link(d, links.drop_first()),
        }
    }
}

/// The entry a section announces: its date is its id read as
/// `%d-%B-%Y`, its title and link come from its first labeled link.
pub open spec fn wildlife_entry(d: DocView, section: int) -> Option<(Date, EntryView)> {
    match id_of(d, section) {
        Some(id) => match parsed_date(id, "%d-%B-%Y"@) {
            Some(date) => match first_labeled_link(d, select_within(d, section, "a"@)) {
                Some((title, href)) => Some(
                    (
                        date,
                        EntryView {
                            title,
                            url: "https://www.theguardian.com"@ + href,
                            preview_image_url: wildlife_picture(d, section),
                            score: 1,
                        },
                    ),
                ),
                None => None,
            },
            None => None,
        },
        None => None,
    }
}

/// The preview of a section's entry comes from the first picture of the
/// section in document order: it is the source of the first image inside
/// that picture when there is one, and empty when the section has no
/// picture.
pub proof fn law_wildlife_preview_from_first_picture(d: DocView, section: int)
    requires
        wildlife_entry(d, section) is Some,
    ensures
        ({
            let preview = (wildlife_entry(d, section)->0).1.preview_image_url;
            let pics = select_within(d, section, "picture"@);
            &&& pics.len() == 0 ==> preview.len() == 0
            &&& (pics.len() > 0 && select_within(d, pics[0] as int, "img"@).len() > 0 && attr_of(
                d,
                select_within(d, pics[0] as int, "img"@)[0] as int,
                "src"@,
            ) is Some) ==> Some(preview) == attr_of(d, select_within(d, pics[0] as int, "img"@)[0] as int, "src"@)
        }),
{
}

/// The entries announced by the given sections, in order.
pub open spec fn wildlife_entries(d: DocView, sections: Seq<usize>) -> Seq<(Date, EntryView)>
    decreases sections.len(),
{
    if sections.len() == 0 {
        Seq::empty()
    } else {
        let p = wildlife_entries(d, sections.drop_last());
        match wildlife_entry(d, sections.last() as int) {
            Some(x) => p.push(x),
            None => p,
        }
    }
}

/// The picture of a section.
fn section_picture(doc: &Document, section: usize) -> (r: String)
    requires
        section < doc@.len(),
    ensures
        r@ == wildlife_picture(doc@, section as int),
{
    match doc.first_within(section, "picture") {
        Some(p) => match doc.first_within(p, "img") {
            Some(img) => match doc.attr(img, "src") {
                Some(src) => src,
                None => String::new(),
            },
            None => String::new(),
        },
        None => String::new(),
    }
}

/// The entry a section announces.
#[verifier::loop_isolation(false)]
pub fn section_entry(doc: &Document, section: usize) -> (r: Option<DatedEntry>)
    requires
        section < doc@.len(),
    ensures
        match r {
            Some(x) => wildlife_entry(doc@, section as int) == Some(x@),
            None => wildlife_entry(doc@, section as int) is None,
        },
{
    let id = match doc.element_id(section) {
        Some(id) => id,
        None => return None,
    };
    let date = match parse_date(id.as_str(), "%d-%B-%Y") {
        Some(d) => d,
        None => return None,
    };
    let picture_url = section_picture(doc, section);
    let links = doc.select_within(section, "a");
    let ghost lv = links@;
    let mut k: usize = 0;
    assert(lv.skip(0) =~= lv);
    while k < links.len()
        invariant
            lv == links@,
            k <= links.len(),
            forall|q: int| 0 <= q < links@.len() ==> #[trigger] links@[q] < doc@.len(),
            first_labeled_link(doc@, lv) == first_labeled_link(doc@, lv.skip(k as int)),
        decreases links.len() - k,
    {
        let link = links[k];
        assert(lv.skip(k as int).drop_first() =~= lv.skip(k + 1));
        assert(lv.skip(k as int)[0] == link);
        match doc.attr(link, "aria-label") {
            Some(title) => {
                match doc.attr(link, "href") {
                    Some(href) => {
                        let url = prefixed("https://www.theguardian.com", &href);
                        let entry = Entry { title, url, preview_image_url: picture_url, score: 1 };
                        return Some(DatedEntry { entry, date });
                    },
                    None => {},
                }
            },
            None => {},
        }
        k += 1;
    }
    None
}

impl WeekInWildlife {
    /// Records the entries a page of the series announces, one per section
    /// whose id is a date and which holds a labeled link.
    pub fn update_remote(&mut self, document: &Document)
        ensures
            final(self).remote_entries@ == map_add_all(
                old(self).remote_entries@,
                wildlife_entries(document@, select_doc(document@, "section"@)),
            ),
            final(self).entries@ == old(self).entries@,
    {
        let sections = document.select_doc("section");
        let ghost sv = sections@;
        let mut k: usize = 0;
        while k < sections.len()
            invariant
                sv == sections@,
                k <= sections.len(),
                forall|q: int| 0 <= q < sections@.len() ==> #[trigger] sections@[q] < document@.len(),
                self.remote_entries@ == map_add_all(
                    old(self).remote_entries@,
                    wildlife_entries(document@, sv.take(k as int)),
                ),
                self.entries@ == old(self).entries@,
            decreases sections.len() - k,
        {
            assert(sv.take(k + 1).drop_last() =~= sv.take(k as int));
            assert(sv.take(k + 1).last() == sv[k as int]);
            let ghost prev = wildlife_entries(document@, sv.take(k as int));
            match section_entry(document, sections[k]) {
                Some(x) => {
                    assert(prev.push(x@).drop_last() =~= prev);
                    self.remote_entries.add(x.date, x.entry);
                },
                None => {},
            }
            k += 1;
        }
        assert(sv.take(k as int) =~= sv);
    }
}

impl WeekInWildlife {
    /// Records the entries of a page of the series, given as HTML text.
    pub fn update_from_page(&mut self, html: &str)
        ensures
            final(self).remote_entries@ == map_add_all(
                old(self).remote_entries@,
                wildlife_entries(parsed_document(html@), select_doc(parsed_document(html@), "section"@)),
            ),
            final(self).entries@ == old(self).entries@,
    {
        let document = parse_document(html);
        self.update_remote(&document);
    }
}

} // verus!

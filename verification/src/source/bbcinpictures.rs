use vstd::prelude::*;

use super::store::{map_add_all, EntryMap, EntryMapView};
use super::{Date, Entry, EntryView, Source};
use crate::dates::{
    clock_reading, date_before, local_date_before, local_now, parse_date, parsed_date, LocalClock, MAX_DELTA_SECONDS,
};
use crate::dom::{parse_document, parsed_document, 
    attr_of, first_of, parent_element, select_doc, select_within, texts_of, DocView, Document,
};
use crate::text::{
    append_chars, before_first, before_first_exec, chars_of, contains_seq, decimal, decimal_exec,
    find_first, join, join_exec, parse_i64, parse_i64_exec, prefixed, str_to_string, string_eq,
    string_of,
};

verus! {

/// BBC News "In Pictures".
pub struct BBCInPictures {
    pub remote_entries: EntryMap,
    pub entries: EntryMap,
}

impl BBCInPictures {
    /// The source with the entries stored before and no remote entries yet.
    pub fn new(entries: EntryMap) -> (r: BBCInPictures)
        ensures
            r.remote_entries@ == Seq::<(Date, Seq<EntryView>)>::empty(),
            r.entries@ == entries@,
    {
        BBCInPictures { remote_entries: EntryMap::new(), entries }
    }
}

impl Source for BBCInPictures {
    open spec fn name_view(&self) -> Seq<char> {
        "BBCInPictures"@
    }

    open spec fn base_url_view(&self) -> Seq<char> {
        "https://www.bbc.co.uk/news/in_pictures"@
    }

    open spec fn remote_view(&self) -> EntryMapView {
        self.remote_entries@
    }

    open spec fn known_view(&self) -> EntryMapView {
        self.entries@
    }

    fn name(&self) -> (r: String) {
        str_to_string("BBCInPictures")
    }

    fn base_url(&self) -> (r: String) {
        str_to_string("https://www.bbc.co.uk/news/in_pictures")
    }

    fn get_remote(&self) -> (r: EntryMap) {
        self.remote_entries.clone()
    }

    fn entries(&self) -> (r: EntryMap) {
        self.entries.clone()
    }
}

/// When a picture story was posted, as the page shows it: a day and a
/// month (`"12 Mar"`), or an amount of time units ago (`"5h"`), with the
/// unit's length in seconds.
pub enum Stamp {
    Day(String),
    Ago { amount: i64, unit: i64 },
}

/// The plain value of a [`Stamp`].
pub enum StampView {
    Day(Seq<char>),
    Ago { amount: int, unit: int },
}

impl View for Stamp {
    type V = StampView;

    open spec fn view(&self) -> StampView {
        match self {
            Stamp::Day(t) => StampView::Day(t@),
            Stamp::Ago { amount, unit } => StampView::Ago { amount: *amount as int, unit: *unit as int },
        }
    }
}

/// A picture story found on the page, before its date is worked out.
pub struct Candidate {
    pub stamp: Stamp,
    pub title: String,
    pub url: String,
    pub picture: String,
}

/// The plain value of a [`Candidate`].
pub struct CandidateView {
    pub stamp: StampView,
    pub title: Seq<char>,
    pub url: Seq<char>,
    pub picture: Seq<char>,
}

impl View for Candidate {
    type V = CandidateView;

    open spec fn view(&self) -> CandidateView {
        CandidateView { stamp: self.stamp@, title: self.title@, url: self.url@, picture: self.picture@ }
    }
}

/// The views of a sequence of candidates.
pub open spec fn candidates_view(v: Seq<Candidate>) -> Seq<CandidateView> {
    v.map_values(|c: Candidate| c@)
}

/// The amount before a unit's name, read as an `i64`.
pub open spec fn ago_stamp(text: Seq<char>, unit_name: Seq<char>, unit: int) -> Option<StampView> {
    match parse_i64(before_first(text, unit_name)) {
        Some(amount) => Some(StampView::Ago { amount, unit }),
        None => None,
    }
}

/// How a posting text reads: with a space, a day and a month; else an
/// amount of minutes, hours or days (the first unit named, in that order).
pub open spec fn posted_stamp(text: Seq<char>) -> Option<StampView> {
    if contains_seq(text, " "@) {
        Some(StampView::Day(text))
    } else if contains_seq(text, "min"@) {
        ago_stamp(text, "min"@, 60)
    } else if contains_seq(text, "h"@) {
        ago_stamp(text, "h"@, 3600)
    } else if contains_seq(text, "d"@) {
        ago_stamp(text, "d"@, 86400)
    } else {
        None
    }
}

/// The source of the first of the given images that has one, else empty.
pub open spec fn first_src(d: DocView, imgs: Seq<usize>) -> Seq<char>
    decreases imgs.len(),
{
    if imgs.len() == 0 {
        Seq::empty()
    } else {
        match attr_of(d, imgs[0] as int, "src"@) {
            Some(src) => src,
            None => first_src(d, imgs.drop_first()),
        }
    }
}

/// The candidates the given spans give for one story: one for each span
/// marked `aria-hidden` whose joined texts read as a posting time.
pub open spec fn span_candidates(
    d: DocView,
    spans: Seq<usize>,
    title: Seq<char>,
    url: Seq<char>,
    picture: Seq<char>,
) -> Seq<CandidateView>
    decreases spans.len(),
{
    if spans.len() == 0 {
        Seq::empty()
    } else {
        let prev = span_candidates(d, spans.drop_last(), title, url, picture);
        let s = spans.last() as int;
        if attr_of(d, s, "aria-hidden"@) is Some {
            match posted_stamp(join(texts_of(d, s), " "@)) {
                Some(stamp) => prev.push(CandidateView { stamp, title, url, picture }),
                None => prev,
            }
        } else {
            prev
        }
    }
}

/// The candidates one block gives: when its first text is `Posted`, those
/// of the spans of its parent element.
pub open spec fn div_candidates(d: DocView, div: int, title: Seq<char>, url: Seq<char>, picture: Seq<char>) -> Seq<CandidateView> {
    if first_of(texts_of(d, div)) == Some("Posted"@) {
        match parent_element(d, div) {
            Some(p) => span_candidates(d, select_within(d, p, "span"@), title, url, picture),
            None => Seq::empty(),
        }
    } else {
        Seq::empty()
    }
}

/// The candidates of the given blocks, block after block.
pub open spec fn divs_candidates(
    d: DocView,
    divs: Seq<usize>,
    title: Seq<char>,
    url: Seq<char>,
    picture: Seq<char>,
) -> Seq<CandidateView>
    decreases divs.len(),
{
    if divs.len() == 0 {
        Seq::empty()
    } else {
        divs_candidates(d, divs.drop_last(), title, url, picture) + div_candidates(
            d,
            divs.last() as int,
            title,
            url,
            picture,
        )
    }
}

/// The candidates of one list item: it needs a link with a target and a
/// picture; the title is the link's texts joined, the address the target
/// on the BBC's site, the picture the first image source in the picture.
pub open spec fn item_candidates(d: DocView, li: int) -> Seq<CandidateView> {
    match first_of(select_within(d, li, "a"@)) {
        Some(link) => match attr_of(d, link as int, "href"@) {
            Some(href) => match first_of(select_within(d, li, "picture"@)) {
                Some(pic) => divs_candidates(
                    d,
                    select_within(d, li, "div"@),
                    join(texts_of(d, link as int), Seq::empty()),
                    "https://www.bbc.co.uk"@ + href,
                    first_src(d, select_within(d, pic as int, "img"@)),
                ),
                None => Seq::empty(),
            },
            None => Seq::empty(),
        },
        None => Seq::empty(),
    }
}

/// The candidates of the given list items, item after item.
pub open spec fn items_candidates(d: DocView, lis: Seq<usize>) -> Seq<CandidateView>
    decreases lis.len(),
{
    if lis.len() == 0 {
        Seq::empty()
    } else {
        items_candidates(d, lis.drop_last()) + item_candidates(d, lis.last() as int)
    }
}

/// The candidates of a page.
pub open spec fn page_candidates(d: DocView) -> Seq<CandidateView> {
    items_candidates(d, select_doc(d, "li"@))
}

/// The time a stamp stands for fits in a `chrono::TimeDelta` of whole
/// seconds; beyond it, building the delta panics.
pub open spec fn stamp_in_range(s: StampView) -> bool {
    match s {
        StampView::Day(_) => true,
        StampView::Ago { amount, unit } => -MAX_DELTA_SECONDS <= amount * unit <= MAX_DELTA_SECONDS,
    }
}

/// Every stamp of the candidates is in range.
pub open spec fn all_in_range(cs: Seq<CandidateView>) -> bool {
    forall|i: int| 0 <= i < cs.len() ==> stamp_in_range(#[trigger] cs[i].stamp)
}

/// The date of a day-and-month stamp in the given year (`%d %b %Y`).
pub open spec fn day_date(text: Seq<char>, year: i32) -> Option<Date> {
    parsed_date(text + " "@ + decimal(year as int), "%d %b %Y"@)
}

/// The entry a candidate gives once dated.
pub open spec fn candidate_entry(c: CandidateView) -> EntryView {
    EntryView { title: c.title, url: c.url, preview_image_url: c.picture, score: 1 }
}

/// The dated entries of candidates paired with their dates: those whose
/// date could be worked out, in order.
pub open spec fn dated_entries(cs: Seq<CandidateView>, dates: Seq<Option<Date>>) -> Seq<(Date, EntryView)>
    decreases cs.len(),
{
    if cs.len() == 0 {
        Seq::empty()
    } else {
        let n = cs.len() - 1;
        let prev = dated_entries(cs.drop_last(), dates.take(n));
        match dates[n] {
            Some(date) => prev.push((date, candidate_entry(cs.last()))),
            None => prev,
        }
    }
}

/// Reads an amount before a unit's name.
fn read_ago(text: &Vec<char>, unit_name: &Vec<char>, unit: i64) -> (r: Option<Stamp>)
    ensures
        match r {
            Some(s) => ago_stamp(text@, unit_name@, unit as int) == Some(s@),
            None => ago_stamp(text@, unit_name@, unit as int) is None,
        },
{
    let head = before_first_exec(text, unit_name);
    match parse_i64_exec(&head) {
        Some(amount) => Some(Stamp::Ago { amount, unit }),
        None => None,
    }
}

/// Reads a posting text.
pub fn read_stamp(text: &Vec<char>) -> (r: Option<Stamp>)
    ensures
        match r {
            Some(s) => posted_stamp(text@) == Some(s@),
            None => posted_stamp(text@) is None,
        },
{
    if find_first(text, &chars_of(" ")).is_some() {
        return Some(Stamp::Day(string_of(text)));
    }
    let min = chars_of("min");
    if find_first(text, &min).is_some() {
        return read_ago(text, &min, 60);
    }
    let h = chars_of("h");
    if find_first(text, &h).is_some() {
        return read_ago(text, &h, 3600);
    }
    let d = chars_of("d");
    if find_first(text, &d).is_some() {
        return read_ago(text, &d, 86400);
    }
    None
}

/// The source of the first image under `pic` that has one.
fn picture_source(doc: &Document, pic: usize) -> (r: String)
    requires
        pic < doc@.len(),
    ensures
        r@ == first_src(doc@, select_within(doc@, pic as int, "img"@)),
{
    let imgs = doc.select_within(pic, "img");
    let ghost iv = imgs@;
    let mut k: usize = 0;
    assert(iv.skip(0) =~= iv);
    while k < imgs.len()
        invariant
            iv == imgs@,
            k <= imgs.len(),
            iv == select_within(doc@, pic as int, "img"@),
            forall|q: int| 0 <= q < imgs@.len() ==> #[trigger] imgs@[q] < doc@.len(),
            first_src(doc@, iv) == first_src(doc@, iv.skip(k as int)),
        decreases imgs.len() - k,
    {
        assert(iv.skip(k as int).drop_first() =~= iv.skip(k + 1));
        assert(iv.skip(k as int)[0] == imgs@[k as int]);
        match doc.attr(imgs[k], "src") {
            Some(src) => return src,
            None => {},
        }
        k += 1;
    }
    String::new()
}

/// Appends the candidates the spans under `p` give for one story.
fn push_span_candidates(
    doc: &Document,
    p: usize,
    title: &String,
    url: &String,
    picture: &String,
    out: &mut Vec<Candidate>,
)
    requires
        p < doc@.len(),
    ensures
        candidates_view(final(out)@) == candidates_view(old(out)@) + span_candidates(
            doc@,
            select_within(doc@, p as int, "span"@),
            title@,
            url@,
            picture@,
        ),
{
    let spans = doc.select_within(p, "span");
    let ghost sv = spans@;
    let ghost start = candidates_view(out@);
    let sep = chars_of(" ");
    let mut k: usize = 0;
    assert(start + span_candidates(doc@, sv.take(0), title@, url@, picture@) =~= start);
    while k < spans.len()
        invariant
            sv == spans@,
            sv == select_within(doc@, p as int, "span"@),
            k <= spans.len(),
            sep@ == " "@,
            forall|q: int| 0 <= q < spans@.len() ==> #[trigger] spans@[q] < doc@.len(),
            candidates_view(out@) == start + span_candidates(doc@, sv.take(k as int), title@, url@, picture@),
        decreases spans.len() - k,
    {
        let s = spans[k];
        assert(sv.take(k + 1).drop_last() =~= sv.take(k as int));
        assert(sv.take(k + 1).last() == s);
        let ghost before = candidates_view(out@);
        match doc.attr(s, "aria-hidden") {
            Some(_) => {
                let texts = doc.texts(s);
                let text = join_exec(&texts, &sep);
                match read_stamp(&text) {
                    Some(stamp) => {
                        let c = Candidate { stamp, title: title.clone(), url: url.clone(), picture: picture.clone() };
                        out.push(c);
                        assert(candidates_view(out@) =~= before.push(c@));
                    },
                    None => {},
                }
            },
            None => {},
        }
        k += 1;
    }
    assert(sv.take(k as int) =~= sv);
}

/// Appends the candidates of one list item.
fn push_item_candidates(doc: &Document, li: usize, out: &mut Vec<Candidate>)
    requires
        li < doc@.len(),
    ensures
        candidates_view(final(out)@) == candidates_view(old(out)@) + item_candidates(doc@, li as int),
{
    let ghost start = candidates_view(out@);
    let link = match doc.first_within(li, "a") {
        Some(a) => a,
        None => {
            assert(start + Seq::<CandidateView>::empty() =~= start);
            return;
        },
    };
    let href = match doc.attr(link, "href") {
        Some(h) => h,
        None => {
            assert(start + Seq::<CandidateView>::empty() =~= start);
            return;
        },
    };
    let pic = match doc.first_within(li, "picture") {
        Some(p) => p,
        None => {
            assert(start + Seq::<CandidateView>::empty() =~= start);
            return;
        },
    };
    let url = prefixed("https://www.bbc.co.uk", &href);
    let texts = doc.texts(link);
    let empty: Vec<char> = Vec::new();
    let title = string_of(&join_exec(&texts, &empty));
    let picture = picture_source(doc, pic);
    let posted = str_to_string("Posted");
    let divs = doc.select_within(li, "div");
    let ghost dv = divs@;
    let mut i: usize = 0;
    assert(start + divs_candidates(doc@, dv.take(0), title@, url@, picture@) =~= start);
    while i < divs.len()
        invariant
            dv == divs@,
            i <= divs.len(),
            posted@ == "Posted"@,
            forall|q: int| 0 <= q < divs@.len() ==> #[trigger] divs@[q] < doc@.len(),
            candidates_view(out@) == start + divs_candidates(doc@, dv.take(i as int), title@, url@, picture@),
        decreases divs.len() - i,
    {
        let div = divs[i];
        assert(dv.take(i + 1).drop_last() =~= dv.take(i as int));
        assert(dv.take(i + 1).last() == div);
        let ghost before = candidates_view(out@);
        let texts = doc.texts(div);
        let ghost tv = texts@.map_values(|s: String| s@);
        let is_posted = texts.len() > 0 && string_eq(&texts[0], &posted);
        assert(is_posted == (first_of(texts_of(doc@, div as int)) == Some("Posted"@))) by {
            if texts.len() > 0 {
                assert(tv[0] == texts@[0]@);
            }
        }
        if is_posted {
            match doc.parent_element(div) {
                Some(p) => {
                    push_span_candidates(doc, p, &title, &url, &picture, out);
                },
                None => {
                    assert(before + Seq::<CandidateView>::empty() =~= before);
                },
            }
        } else {
            assert(before + Seq::<CandidateView>::empty() =~= before);
        }
        assert(candidates_view(out@) =~= start + divs_candidates(doc@, dv.take(i + 1), title@, url@, picture@));
        i += 1;
    }
    assert(dv.take(i as int) =~= dv);
}

/// The picture stories of a page, before their dates are worked out.
pub fn candidates(document: &Document) -> (r: Vec<Candidate>)
    ensures
        candidates_view(r@) == page_candidates(document@),
{
    let lis = document.select_doc("li");
    let ghost lv = lis@;
    let mut out: Vec<Candidate> = Vec::new();
    let mut i: usize = 0;
    assert(candidates_view(out@) =~= items_candidates(document@, lv.take(0)));
    while i < lis.len()
        invariant
            lv == lis@,
            i <= lis.len(),
            forall|q: int| 0 <= q < lis@.len() ==> #[trigger] lis@[q] < document@.len(),
            candidates_view(out@) == items_candidates(document@, lv.take(i as int)),
        decreases lis.len() - i,
    {
        assert(lv.take(i + 1).drop_last() =~= lv.take(i as int));
        assert(lv.take(i + 1).last() == lis[i as int]);
        push_item_candidates(document, lis[i], &mut out);
        i += 1;
    }
    assert(lv.take(i as int) =~= lv);
    out
}

/// Whether a stamp is in range.
pub fn stamp_fits(s: &Stamp) -> (r: bool)
    ensures
        r == stamp_in_range(s@),
{
    match s {
        Stamp::Day(_) => true,
        Stamp::Ago { amount, unit } => {
            match amount.checked_mul(*unit) {
                Some(p) => -MAX_DELTA_SECONDS <= p && p <= MAX_DELTA_SECONDS,
                None => false,
            }
        },
    }
}

/// Whether every posting time a page shows fits in a `chrono::TimeDelta`.
pub fn posted_in_range(document: &Document) -> (r: bool)
    ensures
        r == all_in_range(page_candidates(document@)),
{
    let cs = candidates(document);
    let ghost cv = candidates_view(cs@);
    let mut i: usize = 0;
    while i < cs.len()
        invariant
            cv == candidates_view(cs@),
            cv == page_candidates(document@),
            i <= cs.len(),
            forall|j: int| 0 <= j < i ==> stamp_in_range(#[trigger] cv[j].stamp),
        decreases cs.len() - i,
    {
        assert(cv[i as int] == cs@[i as int]@);
        if !stamp_fits(&cs[i].stamp) {
            assert(!stamp_in_range(cv[i as int].stamp));
            return false;
        }
        i += 1;
    }
    true
}

/// How the date of a stamp relates to the moment `now`: a day and month
/// is read in the year of `now`; an amount of units ago is the local date
/// `amount * unit` seconds before `now`, as [`date_before`] describes it.
pub open spec fn stamp_date(now: LocalClock, stamp: StampView, r: Option<Date>) -> bool {
    match stamp {
        StampView::Day(t) => r == day_date(t, now.year),
        StampView::Ago { amount, unit } => date_before(now, amount * unit, r),
    }
}

/// The seconds in an amount of time units.
pub fn ago_seconds(amount: i64, unit: i64) -> (r: i64)
    requires
        -MAX_DELTA_SECONDS <= amount * unit <= MAX_DELTA_SECONDS,
    ensures
        r == amount * unit,
{
    amount * unit
}

/// The date a stamp stands for at the moment `now`: a day and month read
/// in the year of `now`; or the local date that many units before `now`.
pub fn resolve_stamp(now: LocalClock, stamp: &Stamp) -> (r: Option<Date>)
    requires
        stamp_in_range(stamp@),
    ensures
        stamp_date(now, stamp@, r),
{
    match stamp {
        Stamp::Day(t) => {
            let mut text = chars_of(t.as_str());
            text.push(' ');
            append_chars(&mut text, &decimal_exec(now.year));
            let s = string_of(&text);
            proof {
                reveal_strlit(" ");
            }
            assert(s@ =~= t@ + " "@ + decimal(now.year as int));
            parse_date(s.as_str(), "%d %b %Y")
        },
        Stamp::Ago { amount, unit } => {
            let seconds = ago_seconds(*amount, *unit);
            local_date_before(now, seconds)
        },
    }
}

/// The map `after` is `before` with the candidates recorded under the
/// given dates, each the date its stamp stands for at the moment `now`.
pub open spec fn recorded_with(
    before: EntryMapView,
    after: EntryMapView,
    cs: Seq<CandidateView>,
    now: LocalClock,
    dates: Seq<Option<Date>>,
) -> bool {
    &&& dates.len() == cs.len()
    &&& forall|i: int| 0 <= i < dates.len() ==> stamp_date(now, #[trigger] cs[i].stamp, dates[i])
    &&& after == map_add_all(before, dated_entries(cs, dates))
}

impl BBCInPictures {
    /// Records the candidates that have a date, each under its date.
    pub fn add_dated(&mut self, cs: &Vec<Candidate>, dates: &Vec<Option<Date>>)
        requires
            cs.len() == dates.len(),
        ensures
            final(self).remote_entries@ == map_add_all(
                old(self).remote_entries@,
                dated_entries(candidates_view(cs@), dates@),
            ),
            final(self).entries@ == old(self).entries@,
    {
        let ghost cv = candidates_view(cs@);
        let mut i: usize = 0;
        assert(dated_entries(cv.take(0), dates@.take(0)) =~= Seq::<(Date, EntryView)>::empty());
        while i < cs.len()
            invariant
                cv == candidates_view(cs@),
                cs.len() == dates.len(),
                i <= cs.len(),
                self.remote_entries@ == map_add_all(
                    old(self).remote_entries@,
                    dated_entries(cv.take(i as int), dates@.take(i as int)),
                ),
                self.entries@ == old(self).entries@,
            decreases cs.len() - i,
        {
            let ghost prev = dated_entries(cv.take(i as int), dates@.take(i as int));
            assert(cv.take(i + 1).drop_last() =~= cv.take(i as int));
            assert(dates@.take(i + 1).take(i as int) =~= dates@.take(i as int));
            assert(cv.take(i + 1).last() == cs@[i as int]@);
            match dates[i] {
                Some(date) => {
                    let c = &cs[i];
                    let e = Entry {
                        title: c.title.clone(),
                        url: c.url.clone(),
                        preview_image_url: c.picture.clone(),
                        score: 1,
                    };
                    assert(e@ == candidate_entry(cv[i as int]));
                    assert(prev.push((date, e@)).drop_last() =~= prev);
                    self.remote_entries.add(date, e);
                },
                None => {},
            }
            i += 1;
        }
        assert(cv.take(i as int) =~= cv);
        assert(dates@.take(i as int) =~= dates@);
    }

    /// Records the picture stories of a page, dated at the moment `now`:
    /// a story posted on a day and month under that day in the year of
    /// `now`, a story posted some time ago under the local date that long
    /// before `now`; a story whose date cannot be worked out is passed over.
    pub fn update_remote_at(&mut self, document: &Document, now: LocalClock)
        requires
            all_in_range(page_candidates(document@)),
        ensures
            exists|dates: Seq<Option<Date>>|
                recorded_with(
                    old(self).remote_entries@,
                    final(self).remote_entries@,
                    page_candidates(document@),
                    now,
                    dates,
                ),
            final(self).entries@ == old(self).entries@,
    {
        let cs = candidates(document);
        let ghost cv = candidates_view(cs@);
        let mut dates: Vec<Option<Date>> = Vec::new();
        let mut i: usize = 0;
        while i < cs.len()
            invariant
                cv == candidates_view(cs@),
                cv == page_candidates(document@),
                all_in_range(cv),
                i <= cs.len(),
                dates.len() == i,
                forall|j: int| 0 <= j < i ==> stamp_date(now, #[trigger] cv[j].stamp, dates@[j]),
            decreases cs.len() - i,
        {
            assert(cv[i as int] == cs@[i as int]@);
            assert(stamp_in_range(cv[i as int].stamp));
            let date = resolve_stamp(now, &cs[i].stamp);
            dates.push(date);
            i += 1;
        }
        self.add_dated(&cs, &dates);
        assert(recorded_with(
            old(self).remote_entries@,
            self.remote_entries@,
            page_candidates(document@),
            now,
            dates@,
        ));
    }

    /// Records the picture stories of a page, dated at the moment read
    /// from the local clock.
    pub fn update_remote(&mut self, document: &Document)
        requires
            all_in_range(page_candidates(document@)),
        ensures
            exists|now: LocalClock, dates: Seq<Option<Date>>|
                clock_reading(now) && #[trigger] recorded_with(
                    old(self).remote_entries@,
                    final(self).remote_entries@,
                    page_candidates(document@),
                    now,
                    dates,
                ),
            final(self).entries@ == old(self).entries@,
    {
        let now = local_now();
        self.update_remote_at(document, now);
        let ghost dates = choose|dates: Seq<Option<Date>>|
            recorded_with(old(self).remote_entries@, self.remote_entries@, page_candidates(document@), now, dates);
        assert(clock_reading(now) && recorded_with(old(self).remote_entries@, self.remote_entries@, page_candidates(document@), now, dates));
    }
}

impl BBCInPictures {
    /// Records the picture stories of a page, given as HTML text, dated at
    /// the moment read from the local clock, when every posting time it shows fits in a
    /// `chrono::TimeDelta`; else records nothing and returns `false`.
    pub fn update_from_page(&mut self, html: &str) -> (r: bool)
        ensures
            r == all_in_range(page_candidates(parsed_document(html@))),
            r ==> exists|now: LocalClock, dates: Seq<Option<Date>>|
                clock_reading(now) && #[trigger] recorded_with(
                    old(self).remote_entries@,
                    final(self).remote_entries@,
                    page_candidates(parsed_document(html@)),
                    now,
                    dates,
                ),
            !r ==> final(self).remote_entries@ == old(self).remote_entries@,
            final(self).entries@ == old(self).entries@,
    {
        let document = parse_document(html);
        if !posted_in_range(&document) {
            return false;
        }
        self.update_remote(&document);
        true
    }
}

} // verus!

use vstd::prelude::*;
use vstd::utf8::{decode_utf8, encode_utf8, is_char_boundary};

use crate::integrations::discord::{Embed, EmbedView, Image};
use crate::text::{lowercase, replace_char, replace_chars, str_to_string, string_of, to_lowercase, trim, trim_chars, chars_of};

pub mod store;
pub mod archaeologynews;
pub mod bbcfuture;
pub mod bbcinpictures;
pub mod sciencenews;
pub mod subreddit;
pub mod weekinwildlife;

use store::{
    all_urls, distinct_dates, flatten, fresh, map_add, map_add_all, merge_new, new_entries_of, strings_view, url_set,
    urls_seq, EntryMap, EntryMapView,
};

verus! {

broadcast use vstd::string::group_string_axioms;

/// One article found on a source: its title, its link, a preview picture
/// (empty when there is none) and a score used to rank summaries.
#[derive(Debug)]
pub struct Entry {
    pub title: String,
    pub url: String,
    pub preview_image_url: String,
    pub score: u64,
}

/// The plain value of an [`Entry`].
pub struct EntryView {
    pub title: Seq<char>,
    pub url: Seq<char>,
    pub preview_image_url: Seq<char>,
    pub score: u64,
}

impl View for Entry {
    type V = EntryView;

    open spec fn view(&self) -> EntryView {
        EntryView {
            title: self.title@,
            url: self.url@,
            preview_image_url: self.preview_image_url@,
            score: self.score,
        }
    }
}

impl Clone for Entry {
    fn clone(&self) -> (r: Self)
        ensures
            r@ == self@,
    {
        Entry {
            title: self.title.clone(),
            url: self.url.clone(),
            preview_image_url: self.preview_image_url.clone(),
            score: self.score,
        }
    }
}

/// The view of an optional string slice.
pub open spec fn opt_str_view(name: Option<&str>) -> Option<Seq<char>> {
    match name {
        Some(n) => Some(n@),
        None => None,
    }
}

/// The title before it is shortened: `"<name> | <title>"` when a name is
/// given, else the title itself.
pub open spec fn full_title(name: Option<Seq<char>>, title: Seq<char>) -> Seq<char> {
    match name {
        Some(n) => n + seq![' ', '|', ' '] + title,
        None => title,
    }
}

/// The title of an embed: the full title, or, when its UTF-8 encoding is
/// longer than 128 bytes, its first 125 bytes followed by two dots.
pub open spec fn embed_title(name: Option<Seq<char>>, title: Seq<char>) -> Seq<char> {
    let full = full_title(name, title);
    let bytes = encode_utf8(full);
    if bytes.len() > 128 {
        decode_utf8(bytes.take(125)) + seq!['.', '.']
    } else {
        full
    }
}

/// The full title's encoding fits in memory, and shortening a long title
/// cuts it at byte 125, which must lie on a character boundary.
pub open spec fn title_cut_ok(name: Option<Seq<char>>, title: Seq<char>) -> bool {
    let bytes = encode_utf8(full_title(name, title));
    &&& bytes.len() <= usize::MAX
    &&& bytes.len() > 128 ==> is_char_boundary(bytes, 125)
}

/// The embed that presents an entry.
pub open spec fn entry_embed(e: EntryView, name: Option<Seq<char>>) -> EmbedView {
    EmbedView {
        url: e.url,
        title: embed_title(name, e.title),
        image: if e.preview_image_url.len() == 0 {
            None
        } else {
            Some(e.preview_image_url)
        },
    }
}

/// The title of an embed never takes more than 128 bytes in UTF-8, the
/// most Discord shows.
pub proof fn law_embed_title_fits(name: Option<Seq<char>>, title: Seq<char>)
    requires
        title_cut_ok(name, title),
    ensures
        encode_utf8(embed_title(name, title)).len() <= 128,
{
    let bytes = encode_utf8(full_title(name, title));
    if bytes.len() > 128 {
        let head = bytes.take(125);
        vstd::utf8::encode_utf8_valid_utf8(full_title(name, title));
        vstd::utf8::valid_utf8_split(bytes, 125);
        assert(head =~= bytes.subrange(0, 125));
        vstd::utf8::decode_utf8_encode_utf8(head);
        crate::text::lemma_encode_utf8_concat(decode_utf8(head), seq!['.', '.']);
        vstd::utf8::is_ascii_chars_encode_utf8(seq!['.', '.']);
    }
}

impl Entry {
    /// The Discord embed for this entry, its title prefixed by `name` when
    /// one is given and shortened to fit Discord's limit.
    pub fn as_discord_post(&self, name: Option<&str>) -> (r: Embed)
        requires
            title_cut_ok(opt_str_view(name), self.title@),
        ensures
            r@ == entry_embed(self@, opt_str_view(name)),
    {
        let image = if !self.preview_image_url.as_str().is_empty() {
            Some(Image { url: self.preview_image_url.clone() })
        } else {
            None
        };

        let full = match name {
            Some(n) => {
                let mut t = str_to_string(n);
                proof {
                    reveal_strlit(" | ");
                }
                t.append(" | ");
                t.append(self.title.as_str());
                t
            },
            None => self.title.clone(),
        };
        assert(full@ =~= full_title(opt_str_view(name), self.title@));

        let title = if full.as_str().len() > 128 {
            let (head, _rest) = full.as_str().split_at(125);
            proof {
                vstd::utf8::encode_utf8_decode_utf8(head@);
                reveal_strlit("..");
            }
            let mut cut = str_to_string(head);
            cut.append("..");
            assert(cut@ =~= decode_utf8(encode_utf8(full@).take(125)) + seq!['.', '.']);
            cut
        } else {
            full
        };

        Embed { url: self.url.clone(), title, image }
    }
}


/// The views of a sequence of entries.
pub open spec fn entries_view(s: Seq<Entry>) -> Seq<EntryView> {
    s.map_values(|e: Entry| e@)
}

/// A calendar date.
#[derive(Clone, Copy, Debug, PartialEq, Eq, Structural)]
pub struct Date {
    pub year: i32,
    pub month: u32,
    pub day: u32,
}

/// An entry together with the date it was published.
#[derive(Debug)]
pub struct DatedEntry {
    pub entry: Entry,
    pub date: Date,
}

impl View for DatedEntry {
    type V = (Date, EntryView);

    open spec fn view(&self) -> (Date, EntryView) {
        (self.date, self.entry@)
    }
}

/// The views of a sequence of dated entries.
pub open spec fn dated_view(s: Seq<DatedEntry>) -> Seq<(Date, EntryView)> {
    s.map_values(|d: DatedEntry| d@)
}

/// Adds an entry built from its parts to `remote_entries` under `date`: a
/// missing picture becomes the empty URL, and a missing score becomes 1.
pub fn add_entry(
    remote_entries: &mut EntryMap,
    date: Date,
    title: String,
    url: String,
    picture_url: Option<String>,
    score: Option<u64>,
)
    ensures
        final(remote_entries)@ == map_add(
            old(remote_entries)@,
            date,
            EntryView {
                title: title@,
                url: url@,
                preview_image_url: match picture_url {
                    Some(p) => p@,
                    None => Seq::empty(),
                },
                score: match score {
                    Some(s) => s,
                    None => 1,
                },
            },
        ),
{
    let pic = match picture_url {
        Some(s) => s,
        None => String::new(),
    };
    let s = match score {
        Some(s) => s,
        None => 1,
    };
    remote_entries.add(date, Entry { title, url, preview_image_url: pic, score: s });
}


/// The identifier of a source: its name in lower case, without surrounding
/// white space, with every space replaced by a hyphen.
pub open spec fn source_id(name: Seq<char>) -> Seq<char> {
    replace_char(trim(lowercase(name)), ' ', '-')
}

/// Computes [`source_id`].
pub fn id_of(name: &str) -> (r: String)
    ensures
        r@ == source_id(name@),
{
    let lower = to_lowercase(name);
    let cs = chars_of(lower.as_str());
    let trimmed = trim_chars(&cs);
    let replaced = replace_chars(&trimmed, ' ', '-');
    string_of(&replaced)
}

/// The name of the file that stores the entries of the source `id`.
pub fn store_file_name(id: &str) -> (r: String)
    ensures
        r@ == id@ + seq!['.', 'y', 'm', 'l'],
{
    let mut r = str_to_string(id);
    proof {
        reveal_strlit(".yml");
    }
    r.append(".yml");
    r
}

/// The text that heads the summary of a subreddit's best articles.
pub fn summary_header(name: &str) -> (r: String)
    ensures
        r@ == "## Top "@ + name@ + " articles of the last 24 hours."@,
{
    let mut r = str_to_string("## Top ");
    r.append(name);
    r.append(" articles of the last 24 hours.");
    r
}

/// The entries of a list of dated entries, in order.
pub fn entries_of(dated: Vec<DatedEntry>) -> (r: Vec<Entry>)
    ensures
        entries_view(r@) == dated_view(dated@).map_values(|d: (Date, EntryView)| d.1),
{
    let mut r: Vec<Entry> = Vec::new();
    let mut i: usize = 0;
    while i < dated.len()
        invariant
            i <= dated.len(),
            entries_view(r@) == dated_view(dated@).map_values(|d: (Date, EntryView)| d.1).take(i as int),
        decreases dated.len() - i,
    {
        let ghost prev = r@;
        r.push(dated[i].entry.clone());
        assert(entries_view(r@) =~= entries_view(prev).push(dated@[i as int].entry@));
        i += 1;
        assert(entries_view(r@) =~= dated_view(dated@).map_values(|d: (Date, EntryView)| d.1).take(i as int));
    }
    assert(dated_view(dated@).map_values(|d: (Date, EntryView)| d.1).take(i as int) =~= dated_view(dated@).map_values(|d: (Date, EntryView)| d.1));
    r
}

/// A news source: where it is read from, the entries found there on the
/// last visit (the remote entries) and the entries stored before.
pub trait Source {
    /// The source's name.
    spec fn name_view(&self) -> Seq<char>;

    /// The address the source is read from.
    spec fn base_url_view(&self) -> Seq<char>;

    /// The entries found on the last visit.
    spec fn remote_view(&self) -> EntryMapView;

    /// The entries stored before.
    spec fn known_view(&self) -> EntryMapView;

    fn name(&self) -> (r: String)
        ensures
            r@ == self.name_view(),
    ;

    fn base_url(&self) -> (r: String)
        ensures
            r@ == self.base_url_view(),
    ;

    fn get_remote(&self) -> (r: EntryMap)
        ensures
            r@ == self.remote_view(),
    ;

    fn entries(&self) -> (r: EntryMap)
        ensures
            r@ == self.known_view(),
    ;

    /// The identifier under which the source's entries are stored.
    fn id(&self) -> (r: String)
        ensures
            r@ == source_id(self.name_view()),
    {
        let n = self.name();
        id_of(n.as_str())
    }

    /// The URLs of the stored entries.
    fn urls(&self) -> (r: Vec<String>)
        ensures
            strings_view(r@) == urls_seq(flatten(self.known_view())),
    {
        all_urls(&self.entries())
    }

    /// The remote entries that are not stored yet.
    fn new_entries(&self) -> (r: Vec<DatedEntry>)
        ensures
            dated_view(r@) == fresh(flatten(self.remote_view()), url_set(flatten(self.known_view()))),
    {
        new_entries_of(&self.get_remote(), &self.entries())
    }

    /// The entries to store after a visit: the stored ones with the new
    /// remote entries added.
    fn committed_entries(&self) -> (r: EntryMap)
        ensures
            r@ == map_add_all(
                self.known_view(),
                fresh(flatten(self.remote_view()), url_set(flatten(self.known_view()))),
            ),
            distinct_dates(self.known_view()) ==> distinct_dates(r@),
    {
        let new = self.new_entries();
        merge_new(&self.entries(), &new)
    }
}

} // verus!

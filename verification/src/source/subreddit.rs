use vstd::prelude::*;

use super::store::{map_add_all, EntryMap, EntryMapView};
use super::{Date, Entry, EntryView, Source};
use crate::dates::{utc_date, utc_date_of};
use crate::text::{prefixed, str_to_string};

verus! {

/// A subreddit, read through Reddit's JSON listing.
pub struct Subreddit {
    pub remote_entries: EntryMap,
    pub entries: EntryMap,
    pub subreddit: String,
}

impl Subreddit {
    /// The subreddit with the entries stored before and no remote entries
    /// yet.
    pub fn new(entries: EntryMap, subreddit: String) -> (r: Subreddit)
        ensures
            r.remote_entries@ == Seq::<(Date, Seq<EntryView>)>::empty(),
            r.entries@ == entries@,
            r.subreddit@ == subreddit@,
    {
        Subreddit { remote_entries: EntryMap::new(), entries, subreddit }
    }
}

impl Source for Subreddit {
    open spec fn name_view(&self) -> Seq<char> {
        self.subreddit@
    }

    open spec fn base_url_view(&self) -> Seq<char> {
        "https://www.reddit.com/r/"@ + self.subreddit@ + "/.json"@
    }

    open spec fn remote_view(&self) -> EntryMapView {
        self.remote_entries@
    }

    open spec fn known_view(&self) -> EntryMapView {
        self.entries@
    }

    fn name(&self) -> (r: String) {
        self.subreddit.clone()
    }

    fn base_url(&self) -> (r: String) {
        let mut r = str_to_string("https://www.reddit.com/r/");
        r.append(self.subreddit.as_str());
        r.append("/.json");
        r
    }

    fn get_remote(&self) -> (r: EntryMap) {
        self.remote_entries.clone()
    }

    fn entries(&self) -> (r: EntryMap) {
        self.entries.clone()
    }
}

/// A post of a subreddit's listing: its link within Reddit, its title, the
/// Unix time it was created at (whole seconds) and its up-votes.
pub struct RedditPost {
    pub permalink: String,
    pub title: String,
    pub created: i64,
    pub ups: u64,
}

/// The plain value of a [`RedditPost`].
pub struct RedditPostView {
    pub permalink: Seq<char>,
    pub title: Seq<char>,
    pub created: i64,
    pub ups: u64,
}

impl View for RedditPost {
    type V = RedditPostView;

    open spec fn view(&self) -> RedditPostView {
        RedditPostView { permalink: self.permalink@, title: self.title@, created: self.created, ups: self.ups }
    }
}

/// The views of a sequence of posts.
pub open spec fn posts_view(v: Seq<RedditPost>) -> Seq<RedditPostView> {
    v.map_values(|p: RedditPost| p@)
}

/// The entry a post gives: its title, its address on Reddit, no picture,
/// and its up-votes as score.
pub open spec fn post_entry(p: RedditPostView) -> EntryView {
    EntryView { title: p.title, url: "https://reddit.com/"@ + p.permalink, preview_image_url: Seq::empty(), score: p.ups }
}

/// The dated entries of a listing: each post whose creation time has a
/// UTC date, under that date, in order.
pub open spec fn listing_entries(posts: Seq<RedditPostView>) -> Seq<(Date, EntryView)>
    decreases posts.len(),
{
    if posts.len() == 0 {
        Seq::empty()
    } else {
        let prev = listing_entries(posts.drop_last());
        match utc_date(posts.last().created) {
            Some(date) => prev.push((date, post_entry(posts.last()))),
            None => prev,
        }
    }
}

/// The dated entry `e` carries what the post `p` says: its title, its
/// address on Reddit, its up-votes as score and no picture, under the UTC
/// date the post was created on.
pub open spec fn carries_post(e: (Date, EntryView), p: RedditPostView) -> bool {
    &&& e.1.title == p.title
    &&& e.1.url == "https://reddit.com/"@ + p.permalink
    &&& e.1.score == p.ups
    &&& e.1.preview_image_url.len() == 0
    &&& utc_date(p.created) == Some(e.0)
}

/// Each entry recorded from a listing carries one post of it, and every
/// post that has a UTC date is carried by an entry.
pub proof fn law_listing_entries_come_from_posts(posts: Seq<RedditPostView>)
    ensures
        forall|i: int|
            #![trigger listing_entries(posts)[i]]
            0 <= i < listing_entries(posts).len() ==> exists|j: int|
                #![trigger posts[j]]
                0 <= j < posts.len() && carries_post(listing_entries(posts)[i], posts[j]),
        forall|j: int|
            #![trigger posts[j]]
            0 <= j < posts.len() && utc_date(posts[j].created) is Some ==> exists|i: int|
                #![trigger listing_entries(posts)[i]]
                0 <= i < listing_entries(posts).len() && carries_post(listing_entries(posts)[i], posts[j]),
    decreases posts.len(),
{
    if posts.len() > 0 {
        let d = posts.drop_last();
        law_listing_entries_come_from_posts(d);
        let prev = listing_entries(d);
        let all = listing_entries(posts);
        let last = posts.len() - 1;
        assert(posts[last] == posts.last());
        assert forall|i: int| #![trigger all[i]] 0 <= i < all.len() implies exists|j: int|
            #![trigger posts[j]]
            0 <= j < posts.len() && carries_post(all[i], posts[j]) by {
            if i < prev.len() {
                assert(all[i] == prev[i]);
                assert(exists|j: int| #![trigger d[j]] 0 <= j < d.len() && carries_post(prev[i], d[j]));
                let j = choose|j: int| 0 <= j < d.len() && carries_post(prev[i], d[j]);
                assert(d[j] == posts[j]);
            } else {
                assert(carries_post(all[i], posts[last]));
            }
        }
        assert forall|j: int| #![trigger posts[j]] 0 <= j < posts.len() && utc_date(posts[j].created) is Some implies exists|i: int|
            #![trigger all[i]]
            0 <= i < all.len() && carries_post(all[i], posts[j]) by {
            if j < d.len() {
                assert(d[j] == posts[j]);
                assert(exists|i: int| #![trigger prev[i]] 0 <= i < prev.len() && carries_post(prev[i], d[j]));
                let i = choose|i: int| 0 <= i < prev.len() && carries_post(prev[i], d[j]);
                assert(all[i] == prev[i]);
            } else {
                assert(carries_post(all[prev.len() as int], posts[j]));
            }
        }
    }
}

impl Subreddit {
    /// Records the posts of a listing, each under the UTC date it was
    /// created on; a post whose time has no date is passed over.
    pub fn update_from_listing(&mut self, posts: &Vec<RedditPost>)
        ensures
            final(self).remote_entries@ == map_add_all(
                old(self).remote_entries@,
                listing_entries(posts_view(posts@)),
            ),
            final(self).entries@ == old(self).entries@,
            final(self).subreddit@ == old(self).subreddit@,
    {
        let ghost pv = posts_view(posts@);
        let mut i: usize = 0;
        assert(pv.take(0) =~= Seq::<RedditPostView>::empty());
        while i < posts.len()
            invariant
                pv == posts_view(posts@),
                i <= posts.len(),
                self.remote_entries@ == map_add_all(old(self).remote_entries@, listing_entries(pv.take(i as int))),
                self.entries@ == old(self).entries@,
                self.subreddit@ == old(self).subreddit@,
            decreases posts.len() - i,
        {
            let post = &posts[i];
            assert(pv.take(i + 1).drop_last() =~= pv.take(i as int));
            assert(pv.take(i + 1).last() == post@);
            let ghost prev = listing_entries(pv.take(i as int));
            match utc_date_of(post.created) {
                Some(date) => {
                    let e = Entry {
                        title: post.title.clone(),
                        url: prefixed("https://reddit.com/", &post.permalink),
                        preview_image_url: String::new(),
                        score: post.ups,
                    };
                    assert(e@ == post_entry(post@));
                    assert(prev.push((date, e@)).drop_last() =~= prev);
                    self.remote_entries.add(date, e);
                },
                None => {},
            }
            i += 1;
        }
        assert(pv.take(i as int) =~= pv);
    }
}

} // verus!

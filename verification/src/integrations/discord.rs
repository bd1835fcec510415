use vstd::prelude::*;
use vstd::set_lib::{lemma_int_range, lemma_subset_equality, set_int_range};

use crate::source::{entries_view, entry_embed, title_cut_ok, Entry, EntryView};
use crate::text::str_to_string;

verus! {

/// A picture shown in a Discord embed.
#[derive(Debug)]
pub struct Image {
    pub url: String,
}

/// A Discord embed: a titled link with an optional picture.
#[derive(Debug)]
pub struct Embed {
    pub url: String,
    pub title: String,
    pub image: Option<Image>,
}

/// A message sent to a Discord webhook.
#[derive(Debug)]
pub struct Post {
    pub content: String,
    pub embeds: Vec<Embed>,
}

/// The plain value of an [`Embed`]; `image` is the picture's URL.
pub struct EmbedView {
    pub url: Seq<char>,
    pub title: Seq<char>,
    pub image: Option<Seq<char>>,
}

impl View for Embed {
    type V = EmbedView;

    open spec fn view(&self) -> EmbedView {
        EmbedView {
            url: self.url@,
            title: self.title@,
            image: match self.image {
                Some(i) => Some(i.url@),
                None => None,
            },
        }
    }
}


/// The plain value of a [`Post`].
pub struct PostView {
    pub content: Seq<char>,
    pub embeds: Seq<EmbedView>,
}

impl View for Post {
    type V = PostView;

    open spec fn view(&self) -> PostView {
        PostView { content: self.content@, embeds: self.embeds@.map_values(|e: Embed| e@) }
    }
}

/// The scores of a sequence of entries.
pub open spec fn scores_of(s: Seq<Entry>) -> Seq<u64> {
    s.map_values(|e: Entry| e.score)
}

/// In a summary, entry `i` comes before entry `j`: it has the higher score,
/// or the same score and comes later in the input (the input is sorted by
/// ascending score, stably, and then reversed).
pub open spec fn ranks_before(scores: Seq<u64>, i: int, j: int) -> bool {
    scores[i] > scores[j] || (scores[i] == scores[j] && i > j)
}

/// `order` lists every index of `scores` once, in summary order.
pub open spec fn is_summary_order(scores: Seq<u64>, order: Seq<usize>) -> bool {
    &&& order.len() == scores.len()
    &&& forall|k: int| 0 <= k < order.len() ==> #[trigger] order[k] < scores.len()
    &&& forall|a: int, b: int|
        0 <= a < b < order.len() ==> ranks_before(scores, #[trigger] order[a] as int, #[trigger] order[b] as int)
}

/// How many embeds the `k`-th summary post of `n` entries holds.
pub open spec fn chunk_len(n: nat, k: int) -> nat {
    if n - 5 * k >= 5 {
        5
    } else {
        (n - 5 * k) as nat
    }
}

/// The number of summary posts for `n` entries: one per five entries.
pub open spec fn post_count(n: nat) -> nat {
    (n + 4) as nat / 5
}

/// The `k`-th summary post: the header on the first post only, and the
/// embeds of the `k`-th run of five entries in summary order.
pub open spec fn summary_post(
    entries: Seq<EntryView>,
    order: Seq<usize>,
    header: Seq<char>,
    k: int,
) -> PostView {
    PostView {
        content: if k == 0 {
            header
        } else {
            Seq::empty()
        },
        embeds: Seq::new(
            chunk_len(entries.len(), k),
            |j: int| entry_embed(entries[order[5 * k + j] as int], None),
        ),
    }
}

/// All summary posts of the entries, in the given order.
pub open spec fn summary_posts_of(
    entries: Seq<EntryView>,
    order: Seq<usize>,
    header: Seq<char>,
) -> Seq<PostView> {
    Seq::new(post_count(entries.len()), |k: int| summary_post(entries, order, header, k))
}

/// Of two distinct entries, one ranks before the other, and never both.
proof fn lemma_ranks_total(scores: Seq<u64>, a: int, b: int)
    ensures
        a != b ==> (ranks_before(scores, a, b) || ranks_before(scores, b, a)),
        !(ranks_before(scores, a, b) && ranks_before(scores, b, a)),
        !ranks_before(scores, a, a),
{
}

/// A summary order lists each entry: every index of the scores has a
/// place in it.
pub proof fn law_summary_order_lists_each_entry(scores: Seq<u64>, order: Seq<usize>, i: int)
    requires
        is_summary_order(scores, order),
        0 <= i < scores.len(),
    ensures
        exists|k: int| 0 <= k < order.len() && order[k] == i,
{
    let n = scores.len() as int;
    let s = order.map_values(|x: usize| x as int);
    assert(s.no_duplicates()) by {
        assert forall|a: int, b: int| 0 <= a < s.len() && 0 <= b < s.len() && a != b implies s[a] != s[b] by {
            lemma_ranks_total(scores, order[a] as int, order[a] as int);
            if a < b {
                assert(ranks_before(scores, order[a] as int, order[b] as int));
            } else {
                assert(ranks_before(scores, order[b] as int, order[a] as int));
            }
        }
    }
    s.unique_seq_to_set();
    lemma_int_range(0, n);
    assert(s.to_set().subset_of(set_int_range(0, n))) by {
        assert forall|x: int| s.to_set().contains(x) implies set_int_range(0, n).contains(x) by {
            let k = choose|k: int| 0 <= k < s.len() && s[k] == x;
            assert(order[k] < scores.len());
        }
    }
    lemma_subset_equality(s.to_set(), set_int_range(0, n));
    assert(set_int_range(0, n).contains(i));
    assert(s.to_set().contains(i));
    let k = choose|k: int| 0 <= k < s.len() && s[k] == i;
    assert(order[k] == i);
}

proof fn lemma_summary_orders_agree(scores: Seq<u64>, o1: Seq<usize>, o2: Seq<usize>, k: int)
    requires
        is_summary_order(scores, o1),
        is_summary_order(scores, o2),
        0 <= k <= o1.len(),
    ensures
        forall|j: int| 0 <= j < k ==> o1[j] == o2[j],
    decreases k,
{
    if k > 0 {
        let m = k - 1;
        lemma_summary_orders_agree(scores, o1, o2, m);
        let a = o1[m] as int;
        let b = o2[m] as int;
        if a != b {
            law_summary_order_lists_each_entry(scores, o2, a);
            law_summary_order_lists_each_entry(scores, o1, b);
            let p = choose|p: int| 0 <= p < o2.len() && o2[p] == a;
            let q = choose|q: int| 0 <= q < o1.len() && o1[q] == b;
            lemma_ranks_total(scores, a, b);
            if ranks_before(scores, a, b) {
                if p > m {
                    assert(ranks_before(scores, o2[m] as int, o2[p] as int));
                }
                assert(p < m);
                assert(o1[p] == o2[p]);
                assert(ranks_before(scores, o1[p] as int, o1[m] as int));
                lemma_ranks_total(scores, a, a);
            } else {
                if q > m {
                    assert(ranks_before(scores, o1[m] as int, o1[q] as int));
                }
                assert(q < m);
                assert(o1[q] == o2[q]);
                assert(ranks_before(scores, o2[q] as int, o2[m] as int));
                lemma_ranks_total(scores, b, b);
            }
        }
    }
}

/// The summary order is fixed by the scores: two orders that both rank by
/// descending score, the later entry first among equal scores, are the
/// same.
pub proof fn law_summary_order_unique(scores: Seq<u64>, o1: Seq<usize>, o2: Seq<usize>)
    requires
        is_summary_order(scores, o1),
        is_summary_order(scores, o2),
    ensures
        o1 == o2,
{
    lemma_summary_orders_agree(scores, o1, o2, o1.len() as int);
    assert(o1 =~= o2);
}

/// The views of a sequence of posts.
pub open spec fn posts_view(s: Seq<Post>) -> Seq<PostView> {
    s.map_values(|p: Post| p@)
}

/// The message that announces one entry of the source called `name`.
pub fn discord_post(entry: &Entry, name: &str) -> (r: Post)
    requires
        title_cut_ok(Some(name@), entry.title@),
    ensures
        r@.content.len() == 0,
        r@.embeds == seq![entry_embed(entry@, Some(name@))],
{
    let embed = entry.as_discord_post(Some(name));
    let mut embeds = Vec::new();
    embeds.push(embed);
    let r = Post { embeds, content: String::new() };
    assert(r@.embeds =~= seq![entry_embed(entry@, Some(name@))]);
    r
}

/// The order in which a summary presents entries: by descending score, and
/// among equal scores the later entry first.
pub fn summary_order(entries: &Vec<Entry>) -> (order: Vec<usize>)
    ensures
        is_summary_order(scores_of(entries@), order@),
{
    let ghost scores = scores_of(entries@);
    let n = entries.len();
    let mut order: Vec<usize> = Vec::new();
    let mut i: usize = 0;
    while i < n
        invariant
            n == entries.len(),
            scores == scores_of(entries@),
            i <= n,
            order@.len() == i,
            forall|k: int| 0 <= k < order@.len() ==> #[trigger] order@[k] < i,
            forall|a: int, b: int|
                0 <= a < b < order@.len() ==> ranks_before(scores, #[trigger] order@[a] as int, #[trigger] order@[b] as int),
        decreases n - i,
    {
        let mut p: usize = 0;
        while p < order.len() && entries[order[p]].score > entries[i].score
            invariant
                n == entries.len(),
                scores == scores_of(entries@),
                i < n,
                order@.len() == i,
                p <= order@.len(),
                forall|k: int| 0 <= k < order@.len() ==> #[trigger] order@[k] < i,
                forall|q: int| 0 <= q < p ==> #[trigger] scores[order@[q] as int] > scores[i as int],
            decreases order@.len() - p,
        {
            p += 1;
        }
        let ghost old_order = order@;
        order.insert(p, i);
        proof {
            old_order.insert_ensures(p as int, i);
            assert forall|a: int, b: int| 0 <= a < b < order@.len() implies ranks_before(scores, #[trigger] order@[a] as int, #[trigger] order@[b] as int) by {
                if a < p && b < p {
                    assert(order@[a] == old_order[a] && order@[b] == old_order[b]);
                } else if a < p && b == p {
                    assert(scores[old_order[a] as int] > scores[i as int]);
                } else if a < p {
                    assert(order@[b] == old_order[b - 1]);
                    assert(order@[a] == old_order[a]);
                } else if a == p {
                    assert(order@[b] == old_order[b - 1]);
                    assert(p < old_order.len());
                    assert(!(scores[old_order[p as int] as int] > scores[i as int]));
                    if b - 1 > p {
                        assert(ranks_before(scores, old_order[p as int] as int, old_order[b - 1] as int));
                    }
                } else {
                    assert(order@[b] == old_order[b - 1]);
                    assert(order@[a] == old_order[a - 1]);
                }
            }
        }
        i += 1;
    }
    order
}

/// The messages that present a list of entries: ranked by descending
/// score, five to a message, with `header` as the text of the first one.
/// No message is made for an empty list.
pub fn summary_posts(entries: Vec<Entry>, header: &str) -> (r: Vec<Post>)
    requires
        forall|k: int| 0 <= k < entries@.len() ==> title_cut_ok(None, #[trigger] entries@[k].title@),
    ensures
        exists|order: Seq<usize>|
            is_summary_order(scores_of(entries@), order) && posts_view(r@)
                == summary_posts_of(entries_view(entries@), order, header@),
{
    let n = entries.len();
    let order = summary_order(&entries);
    let ghost ev = entries_view(entries@);
    let npost = n / 5 + if n % 5 != 0 { 1 } else { 0 };
    assert(npost == post_count(n as nat));
    let mut posts: Vec<Post> = Vec::new();
    let mut k: usize = 0;
    while k < npost
        invariant
            n == entries.len(),
            ev == entries_view(entries@),
            npost == post_count(n as nat),
            is_summary_order(scores_of(entries@), order@),
            forall|q: int| 0 <= q < entries@.len() ==> title_cut_ok(None, #[trigger] entries@[q].title@),
            k <= npost,
            posts@.len() == k,
            forall|q: int| 0 <= q < k ==> #[trigger] posts@[q]@ == summary_post(ev, order@, header@, q),
        decreases npost - k,
    {
        assert(5 * k < n) by (nonlinear_arith)
            requires k < npost, npost == (n + 4) / 5;
        let start = 5 * k;
        let end = if n - start >= 5 { start + 5 } else { n };
        let mut embeds: Vec<Embed> = Vec::new();
        let mut j = start;
        while j < end
            invariant
                n == entries.len(),
                ev == entries_view(entries@),
                is_summary_order(scores_of(entries@), order@),
                forall|q: int| 0 <= q < entries@.len() ==> title_cut_ok(None, #[trigger] entries@[q].title@),
                start <= j <= end <= n,
                embeds@.len() == j - start,
                forall|t: int| 0 <= t < j - start ==> #[trigger] embeds@[t]@ == entry_embed(ev[order@[start + t] as int], None),
            decreases end - j,
        {
            let e = entries[order[j]].as_discord_post(None);
            embeds.push(e);
            j += 1;
        }
        let content = if k == 0 { str_to_string(header) } else { String::new() };
        let post = Post { content, embeds };
        assert(post@.embeds =~= summary_post(ev, order@, header@, k as int).embeds);
        posts.push(post);
        k += 1;
    }
    assert(posts_view(posts@) =~= summary_posts_of(ev, order@, header@));
    posts
}

} // verus!

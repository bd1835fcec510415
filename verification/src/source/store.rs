use vstd::prelude::*;

use super::{dated_view, entries_view, Date, DatedEntry, Entry, EntryView};
use crate::text::string_eq;

verus! {

/// The entries published on one date, in the order they were added.
#[derive(Debug)]
pub struct DateGroup {
    pub date: Date,
    pub entries: Vec<Entry>,
}

impl View for DateGroup {
    type V = (Date, Seq<EntryView>);

    open spec fn view(&self) -> (Date, Seq<EntryView>) {
        (self.date, entries_view(self.entries@))
    }
}

/// Entries grouped by date: one group per date, groups in the order their
/// dates were first added.
#[derive(Debug)]
pub struct EntryMap {
    pub groups: Vec<DateGroup>,
}

/// The plain value of an [`EntryMap`].
pub type EntryMapView = Seq<(Date, Seq<EntryView>)>;

impl View for EntryMap {
    type V = EntryMapView;

    open spec fn view(&self) -> EntryMapView {
        self.groups@.map_values(|g: DateGroup| g@)
    }
}

/// No two groups share a date.
pub open spec fn distinct_dates(m: EntryMapView) -> bool {
    forall|i: int, j: int| 0 <= i < j < m.len() ==> #[trigger] m[i].0 != #[trigger] m[j].0
}

/// The position of the first group with the given date, or the number of
/// groups when there is none.
pub open spec fn date_index(m: EntryMapView, date: Date) -> int
    decreases m.len(),
{
    if m.len() == 0 {
        0
    } else {
        let k = date_index(m.drop_last(), date);
        if k < m.len() - 1 {
            k
        } else if m.last().0 == date {
            m.len() - 1
        } else {
            m.len() as int
        }
    }
}

/// The map after adding an entry under a date: appended to that date's
/// group, or in a new group at the end.
pub open spec fn map_add(m: EntryMapView, date: Date, e: EntryView) -> EntryMapView {
    let k = date_index(m, date);
    if k < m.len() {
        m.update(k, (date, m[k].1.push(e)))
    } else {
        m.push((date, seq![e]))
    }
}

/// The map after adding dated entries one after another.
pub open spec fn map_add_all(m: EntryMapView, s: Seq<(Date, EntryView)>) -> EntryMapView
    decreases s.len(),
{
    if s.len() == 0 {
        m
    } else {
        map_add(map_add_all(m, s.drop_last()), s.last().0, s.last().1)
    }
}

/// The dated entries of one group.
pub open spec fn group_pairs(g: (Date, Seq<EntryView>)) -> Seq<(Date, EntryView)> {
    Seq::new(g.1.len(), |j: int| (g.0, g.1[j]))
}

/// All dated entries of a map, group by group.
pub open spec fn flatten(m: EntryMapView) -> Seq<(Date, EntryView)>
    decreases m.len(),
{
    if m.len() == 0 {
        Seq::empty()
    } else {
        flatten(m.drop_last()) + group_pairs(m.last())
    }
}

/// The URLs of a sequence of dated entries.
pub open spec fn url_set(s: Seq<(Date, EntryView)>) -> Set<Seq<char>> {
    Set::new(|u: Seq<char>| exists|i: int| 0 <= i < s.len() && #[trigger] s[i].1.url == u)
}

/// The dated entries whose URL is neither in `seen` nor taken by an
/// earlier entry of the sequence.
pub open spec fn fresh(s: Seq<(Date, EntryView)>, seen: Set<Seq<char>>) -> Seq<(Date, EntryView)>
    decreases s.len(),
{
    if s.len() == 0 {
        Seq::empty()
    } else {
        let prev = fresh(s.drop_last(), seen);
        if seen.union(url_set(s.drop_last())).contains(s.last().1.url) {
            prev
        } else {
            prev.push(s.last())
        }
    }
}

/// The views of a sequence of strings.
pub open spec fn strings_view(s: Seq<String>) -> Seq<Seq<char>> {
    s.map_values(|x: String| x@)
}

proof fn lemma_date_index_found(m: EntryMapView, date: Date, i: int)
    requires
        0 <= i <= m.len(),
        forall|q: int| 0 <= q < i ==> m[q].0 != date,
        i < m.len() ==> m[i].0 == date,
    ensures
        date_index(m, date) == i,
    decreases m.len(),
{
    if m.len() == 0 {
    } else if i < m.len() - 1 {
        lemma_date_index_found(m.drop_last(), date, i);
    } else {
        lemma_date_index_found(m.drop_last(), date, m.len() - 1);
    }
}

proof fn lemma_date_index_bound(m: EntryMapView, date: Date)
    ensures
        0 <= date_index(m, date) <= m.len(),
        date_index(m, date) < m.len() ==> m[date_index(m, date)].0 == date,
        forall|q: int| 0 <= q < date_index(m, date) ==> m[q].0 != date,
    decreases m.len(),
{
    if m.len() > 0 {
        let p = m.drop_last();
        lemma_date_index_bound(p, date);
        assert forall|q: int| 0 <= q < date_index(m, date) implies m[q].0 != date by {
            if q < m.len() - 1 {
                assert(m[q] == p[q]);
            }
        }
    }
}

impl Clone for DateGroup {
    fn clone(&self) -> (r: Self)
        ensures
            r@ == self@,
    {
        let mut entries: Vec<Entry> = Vec::new();
        let mut j: usize = 0;
        while j < self.entries.len()
            invariant
                j <= self.entries.len(),
                entries_view(entries@) == entries_view(self.entries@).take(j as int),
            decreases self.entries.len() - j,
        {
            let e = self.entries[j].clone();
            let ghost prev = entries@;
            entries.push(e);
            assert(entries_view(entries@) =~= entries_view(prev).push(e@));
            assert(entries_view(self.entries@).take(j + 1) =~= entries_view(self.entries@).take(
                j as int,
            ).push(self.entries@[j as int]@));
            j += 1;
        }
        assert(entries_view(self.entries@).take(j as int) =~= entries_view(self.entries@));
        DateGroup { date: self.date, entries }
    }
}

impl Clone for EntryMap {
    fn clone(&self) -> (r: Self)
        ensures
            r@ == self@,
    {
        let mut groups: Vec<DateGroup> = Vec::new();
        let mut i: usize = 0;
        while i < self.groups.len()
            invariant
                i <= self.groups.len(),
                groups@.map_values(|g: DateGroup| g@) == self@.take(i as int),
            decreases self.groups.len() - i,
        {
            let g = self.groups[i].clone();
            let ghost prev = groups@;
            groups.push(g);
            assert(groups@.map_values(|g: DateGroup| g@) =~= prev.map_values(|g: DateGroup| g@).push(g@));
            assert(self@.take(i + 1) =~= self@.take(i as int).push(self.groups@[i as int]@));
            i += 1;
        }
        assert(self@.take(i as int) =~= self@);
        EntryMap { groups }
    }
}

impl EntryMap {
    /// An empty map.
    pub fn new() -> (r: EntryMap)
        ensures
            r@ == Seq::<(Date, Seq<EntryView>)>::empty(),
    {
        let r = EntryMap { groups: Vec::new() };
        assert(r@ =~= Seq::<(Date, Seq<EntryView>)>::empty());
        r
    }

    /// The position of the group of `date`, if there is one.
    pub fn find(&self, date: Date) -> (r: Option<usize>)
        ensures
            r == (if date_index(self@, date) < self@.len() {
                Some(date_index(self@, date) as usize)
            } else {
                None::<usize>
            }),
    {
        let mut i: usize = 0;
        while i < self.groups.len() && self.groups[i].date != date
            invariant
                i <= self.groups.len(),
                forall|q: int| 0 <= q < i ==> self@[q].0 != date,
            decreases self.groups.len() - i,
        {
            i += 1;
        }
        proof {
            lemma_date_index_found(self@, date, i as int);
        }
        if i < self.groups.len() {
            Some(i)
        } else {
            None
        }
    }

    /// Adds an entry under a date.
    pub fn add(&mut self, date: Date, entry: Entry)
        ensures
            final(self)@ == map_add(old(self)@, date, entry@),
            distinct_dates(old(self)@) ==> distinct_dates(final(self)@),
    {
        let ghost before = self@;
        proof {
            lemma_date_index_bound(before, date);
        }
        let found = self.find(date);
        let glen = self.groups.len();
        assert(before.len() == glen);
        match found {
            Some(k) => {
                assert(k as int == date_index(before, date));
                let mut g = self.groups.remove(k);
                assert(g@ == before[k as int]);
                let ghost ge = g.entries@;
                g.entries.push(entry);
                assert(entries_view(g.entries@) =~= entries_view(ge).push(entry@));
                assert(before[k as int].0 == date);
                assert(g.date == date);
                assert(before[k as int].1 == entries_view(ge));
                assert(g@ == (date, before[k as int].1.push(entry@)));
                self.groups.insert(k, g);
                assert(self@ =~= map_add(before, date, entry@));
            },
            None => {
                let mut entries = Vec::new();
                entries.push(entry);
                let g = DateGroup { date, entries };
                assert(g@.1 =~= seq![entry@]);
                self.groups.push(g);
                assert(self@ =~= map_add(before, date, entry@));
            },
        }
    }
}


/// The URLs of a sequence of dated entries, in order.
pub open spec fn urls_seq(s: Seq<(Date, EntryView)>) -> Seq<Seq<char>> {
    s.map_values(|p: (Date, EntryView)| p.1.url)
}

proof fn lemma_flatten_take_step(m: EntryMapView, i: int)
    requires
        0 <= i < m.len(),
    ensures
        flatten(m.take(i + 1)) == flatten(m.take(i)) + group_pairs(m[i]),
{
    assert(m.take(i + 1).drop_last() =~= m.take(i));
}

proof fn lemma_group_pairs_take_step(g: (Date, Seq<EntryView>), j: int)
    requires
        0 <= j < g.1.len(),
    ensures
        group_pairs(g).take(j + 1) == group_pairs(g).take(j).push((g.0, g.1[j])),
{
    assert(group_pairs(g).take(j + 1) =~= group_pairs(g).take(j).push((g.0, g.1[j])));
}

proof fn lemma_url_set_push(s: Seq<(Date, EntryView)>, x: (Date, EntryView))
    ensures
        url_set(s.push(x)) == url_set(s).insert(x.1.url),
{
    assert forall|u: Seq<char>| #[trigger] url_set(s.push(x)).contains(u) implies url_set(s).insert(x.1.url).contains(u) by {
        let i = choose|i: int| 0 <= i < s.push(x).len() && #[trigger] s.push(x)[i].1.url == u;
        if i < s.len() {
            assert(s[i].1.url == u);
        }
    }
    assert forall|u: Seq<char>| #[trigger] url_set(s).insert(x.1.url).contains(u) implies url_set(s.push(x)).contains(u) by {
        if u == x.1.url {
            assert(s.push(x)[s.len() as int].1.url == u);
        } else {
            let i = choose|i: int| 0 <= i < s.len() && #[trigger] s[i].1.url == u;
            assert(s.push(x)[i].1.url == u);
        }
    }
    assert(url_set(s.push(x)) =~= url_set(s).insert(x.1.url));
}

/// The URLs of all entries of a map, in order.
pub fn all_urls(m: &EntryMap) -> (r: Vec<String>)
    ensures
        strings_view(r@) == urls_seq(flatten(m@)),
{
    let mut r: Vec<String> = Vec::new();
    let mut i: usize = 0;
    while i < m.groups.len()
        invariant
            i <= m.groups.len(),
            strings_view(r@) == urls_seq(flatten(m@.take(i as int))),
        decreases m.groups.len() - i,
    {
        let g = &m.groups[i];
        let ghost gv = m@[i as int];
        assert(gv == g@);
        let mut j: usize = 0;
        while j < g.entries.len()
            invariant
                i < m.groups.len(),
                gv == g@,
                gv == m@[i as int],
                j <= g.entries.len(),
                strings_view(r@) == urls_seq(flatten(m@.take(i as int)) + group_pairs(gv).take(j as int)),
            decreases g.entries.len() - j,
        {
            let ghost prev = r@;
            r.push(g.entries[j].url.clone());
            proof {
                lemma_group_pairs_take_step(gv, j as int);
                assert(strings_view(r@) =~= strings_view(prev).push(gv.1[j as int].url));
                assert(flatten(m@.take(i as int)) + group_pairs(gv).take(j + 1) =~= (flatten(
                    m@.take(i as int),
                ) + group_pairs(gv).take(j as int)).push((gv.0, gv.1[j as int])));
                assert(urls_seq(flatten(m@.take(i as int)) + group_pairs(gv).take(j + 1)) =~= urls_seq(
                    flatten(m@.take(i as int)) + group_pairs(gv).take(j as int),
                ).push(gv.1[j as int].url));
            }
            j += 1;
        }
        proof {
            lemma_flatten_take_step(m@, i as int);
            assert(group_pairs(gv).take(j as int) =~= group_pairs(gv));
        }
        i += 1;
    }
    assert(m@.take(i as int) =~= m@);
    r
}

/// Whether a list of strings holds the given string.
pub fn contains_string(v: &Vec<String>, s: &String) -> (r: bool)
    ensures
        r == strings_view(v@).contains(s@),
{
    let mut i: usize = 0;
    while i < v.len()
        invariant
            i <= v.len(),
            forall|q: int| 0 <= q < i ==> v@[q]@ != s@,
        decreases v.len() - i,
    {
        if string_eq(&v[i], s) {
            assert(strings_view(v@)[i as int] == s@);
            return true;
        }
        i += 1;
    }
    assert(!strings_view(v@).contains(s@));
    false
}

/// The entries of `remote` that are not yet in `known`, with their dates:
/// an entry counts as new when its URL is neither among the URLs of `known`
/// nor taken by an earlier entry of `remote`.
pub fn new_entries_of(remote: &EntryMap, known: &EntryMap) -> (r: Vec<DatedEntry>)
    ensures
        dated_view(r@) == fresh(flatten(remote@), url_set(flatten(known@))),
{
    let ghost s0 = url_set(flatten(known@));
    let mut seen = all_urls(known);
    proof {
        assert forall|u: Seq<char>| strings_view(seen@).contains(u) <==> s0.contains(u) by {
            if strings_view(seen@).contains(u) {
                let k = choose|k: int| 0 <= k < strings_view(seen@).len() && strings_view(seen@)[k] == u;
                assert(flatten(known@)[k].1.url == u);
            }
            if s0.contains(u) {
                let k = choose|k: int| 0 <= k < flatten(known@).len() && #[trigger] flatten(known@)[k].1.url == u;
                assert(strings_view(seen@)[k] == u);
            }
        }
    }
    let mut new: Vec<DatedEntry> = Vec::new();
    let mut i: usize = 0;
    while i < remote.groups.len()
        invariant
            i <= remote.groups.len(),
            forall|u: Seq<char>| #[trigger] strings_view(seen@).contains(u) <==> (s0.contains(u) || url_set(flatten(remote@.take(i as int))).contains(u)),
            dated_view(new@) == fresh(flatten(remote@.take(i as int)), s0),
        decreases remote.groups.len() - i,
    {
        let g = &remote.groups[i];
        let ghost gv = remote@[i as int];
        let ghost base = flatten(remote@.take(i as int));
        assert(gv == g@);
        let mut j: usize = 0;
        while j < g.entries.len()
            invariant
                i < remote.groups.len(),
                gv == g@,
                gv == remote@[i as int],
                base == flatten(remote@.take(i as int)),
                j <= g.entries.len(),
                forall|u: Seq<char>| #[trigger] strings_view(seen@).contains(u) <==> (s0.contains(u) || url_set(base + group_pairs(gv).take(j as int)).contains(u)),
                dated_view(new@) == fresh(base + group_pairs(gv).take(j as int), s0),
            decreases g.entries.len() - j,
        {
            let e = &g.entries[j];
            let ghost pre = base + group_pairs(gv).take(j as int);
            let ghost x = (gv.0, gv.1[j as int]);
            proof {
                lemma_group_pairs_take_step(gv, j as int);
                assert(base + group_pairs(gv).take(j + 1) =~= pre.push(x));
                assert(pre.push(x).drop_last() =~= pre);
                lemma_url_set_push(pre, x);
            }
            assert(e@ == gv.1[j as int]);
            let ghost old_seen = strings_view(seen@);
            let c = contains_string(&seen, &e.url);
            if !c {
                let ghost prev_seen = seen@;
                let ghost prev_new = new@;
                seen.push(e.url.clone());
                new.push(DatedEntry { entry: e.clone(), date: g.date });
                proof {
                    assert(strings_view(seen@) =~= strings_view(prev_seen).push(e.url@));
                    assert(dated_view(new@) =~= dated_view(prev_new).push(x));
                }
            }
            proof {
                assert forall|u: Seq<char>| #[trigger] strings_view(seen@).contains(u) <==> (s0.contains(u) || url_set(pre.push(x)).contains(u)) by {
                    if c {
                        assert(strings_view(seen@) == old_seen);
                    } else {
                        assert(strings_view(seen@) == old_seen.push(x.1.url));
                        if u == x.1.url {
                            assert(old_seen.push(x.1.url)[old_seen.len() as int] == u);
                        }
                        if old_seen.push(x.1.url).contains(u) && u != x.1.url {
                            let q = choose|q: int| 0 <= q < old_seen.push(x.1.url).len() && old_seen.push(x.1.url)[q] == u;
                            assert(old_seen[q] == u);
                        }
                        if old_seen.contains(u) {
                            let q = choose|q: int| 0 <= q < old_seen.len() && old_seen[q] == u;
                            assert(old_seen.push(x.1.url)[q] == u);
                        }
                    }
                }
            }
            j += 1;
        }
        proof {
            lemma_flatten_take_step(remote@, i as int);
            assert(group_pairs(gv).take(j as int) =~= group_pairs(gv));
        }
        i += 1;
    }
    assert(remote@.take(i as int) =~= remote@);
    new
}

/// The map after adding each dated entry of `new`, in order.
pub fn merge_new(entries: &EntryMap, new: &Vec<DatedEntry>) -> (r: EntryMap)
    ensures
        r@ == map_add_all(entries@, dated_view(new@)),
        distinct_dates(entries@) ==> distinct_dates(r@),
{
    let mut r = entries.clone();
    let ghost nv = dated_view(new@);
    let mut k: usize = 0;
    while k < new.len()
        invariant
            nv == dated_view(new@),
            k <= new.len(),
            r@ == map_add_all(entries@, nv.take(k as int)),
        decreases new.len() - k,
    {
        let d = &new[k];
        proof {
            assert(nv.take(k + 1).drop_last() =~= nv.take(k as int));
            assert(nv.take(k + 1).last() == nv[k as int]);
        }
        r.add(d.date, d.entry.clone());
        k += 1;
    }
    assert(nv.take(k as int) =~= nv);
    proof {
        if distinct_dates(entries@) {
            law_adding_keeps_one_group_per_date(entries@, nv);
        }
    }
    r
}


/// The URLs of all entries of a map.
pub open spec fn map_urls(m: EntryMapView) -> Set<Seq<char>> {
    Set::new(
        |u: Seq<char>|
            exists|i: int, j: int|
                0 <= i < m.len() && 0 <= j < m[i].1.len() && #[trigger] m[i].1[j].url == u,
    )
}

proof fn lemma_url_set_concat(a: Seq<(Date, EntryView)>, b: Seq<(Date, EntryView)>)
    ensures
        url_set(a + b) == url_set(a).union(url_set(b)),
{
    assert forall|u: Seq<char>| #[trigger] url_set(a + b).contains(u) <==> url_set(a).union(url_set(b)).contains(u) by {
        if url_set(a + b).contains(u) {
            let i = choose|i: int| 0 <= i < (a + b).len() && #[trigger] (a + b)[i].1.url == u;
            if i < a.len() {
                assert(a[i].1.url == u);
            } else {
                assert(b[i - a.len()].1.url == u);
            }
        }
        if url_set(a).contains(u) {
            let i = choose|i: int| 0 <= i < a.len() && #[trigger] a[i].1.url == u;
            assert((a + b)[i].1.url == u);
        }
        if url_set(b).contains(u) {
            let i = choose|i: int| 0 <= i < b.len() && #[trigger] b[i].1.url == u;
            assert((a + b)[a.len() + i].1.url == u);
        }
    }
    assert(url_set(a + b) =~= url_set(a).union(url_set(b)));
}

/// The URLs of a map's flattened entries are the URLs of its groups.
pub proof fn lemma_flatten_urls(m: EntryMapView)
    ensures
        url_set(flatten(m)) == map_urls(m),
    decreases m.len(),
{
    if m.len() == 0 {
        assert(url_set(flatten(m)) =~= map_urls(m));
    } else {
        let d = m.drop_last();
        let g = m.last();
        lemma_flatten_urls(d);
        lemma_url_set_concat(flatten(d), group_pairs(g));
        assert forall|u: Seq<char>| #[trigger] url_set(flatten(m)).contains(u) <==> map_urls(m).contains(u) by {
            if url_set(flatten(d)).contains(u) {
                let (i, j) = choose|i: int, j: int| 0 <= i < d.len() && 0 <= j < d[i].1.len() && #[trigger] d[i].1[j].url == u;
                assert(m[i].1[j].url == u);
            }
            if url_set(group_pairs(g)).contains(u) {
                let j = choose|j: int| 0 <= j < group_pairs(g).len() && #[trigger] group_pairs(g)[j].1.url == u;
                assert(m[m.len() - 1].1[j].url == u);
            }
            if map_urls(m).contains(u) {
                let (i, j) = choose|i: int, j: int| 0 <= i < m.len() && 0 <= j < m[i].1.len() && #[trigger] m[i].1[j].url == u;
                if i < m.len() - 1 {
                    assert(d[i].1[j].url == u);
                } else {
                    assert(group_pairs(g)[j].1.url == u);
                }
            }
        }
        assert(url_set(flatten(m)) =~= map_urls(m));
    }
}

/// Adding an entry adds its URL to the URLs of a map, and no other.
pub proof fn lemma_map_add_urls(m: EntryMapView, date: Date, e: EntryView)
    ensures
        map_urls(map_add(m, date, e)) == map_urls(m).insert(e.url),
{
    lemma_date_index_bound(m, date);
    let k = date_index(m, date);
    let m2 = map_add(m, date, e);
    assert forall|u: Seq<char>| #[trigger] map_urls(m2).contains(u) <==> map_urls(m).insert(e.url).contains(u) by {
        if map_urls(m2).contains(u) {
            let (i, j) = choose|i: int, j: int| 0 <= i < m2.len() && 0 <= j < m2[i].1.len() && #[trigger] m2[i].1[j].url == u;
            if k < m.len() {
                if i != k || j < m[k].1.len() {
                    assert(m[i].1[j].url == u);
                }
            } else if i < m.len() {
                assert(m[i].1[j].url == u);
            }
        }
        if u == e.url {
            if k < m.len() {
                assert(m2[k].1[m[k].1.len() as int].url == u);
            } else {
                assert(m2[m.len() as int].1[0].url == u);
            }
        } else if map_urls(m).contains(u) {
            let (i, j) = choose|i: int, j: int| 0 <= i < m.len() && 0 <= j < m[i].1.len() && #[trigger] m[i].1[j].url == u;
            assert(m2[i].1[j].url == u);
        }
    }
    assert(map_urls(m2) =~= map_urls(m).insert(e.url));
}

/// Adding dated entries adds exactly their URLs to the URLs of a map.
pub proof fn lemma_map_add_all_urls(m: EntryMapView, s: Seq<(Date, EntryView)>)
    ensures
        map_urls(map_add_all(m, s)) == map_urls(m).union(url_set(s)),
    decreases s.len(),
{
    if s.len() == 0 {
        assert(url_set(s) =~= Set::empty());
        assert(map_urls(m).union(url_set(s)) =~= map_urls(m));
    } else {
        lemma_map_add_all_urls(m, s.drop_last());
        lemma_map_add_urls(map_add_all(m, s.drop_last()), s.last().0, s.last().1);
        assert(s.drop_last().push(s.last()) =~= s);
        lemma_url_set_push(s.drop_last(), s.last());
        assert(map_urls(m).union(url_set(s.drop_last())).insert(s.last().1.url) =~= map_urls(m).union(url_set(s)));
    }
}

/// Every URL of a sequence is either already seen or the URL of one of its
/// new entries.
pub proof fn lemma_fresh_covers(s: Seq<(Date, EntryView)>, seen: Set<Seq<char>>)
    ensures
        url_set(s).subset_of(seen.union(url_set(fresh(s, seen)))),
    decreases s.len(),
{
    if s.len() > 0 {
        let d = s.drop_last();
        let x = s.last();
        lemma_fresh_covers(d, seen);
        assert(d.push(x) =~= s);
        lemma_url_set_push(d, x);
        if !seen.union(url_set(d)).contains(x.1.url) {
            lemma_url_set_push(fresh(d, seen), x);
        }
        assert forall|u: Seq<char>| url_set(s).contains(u) implies #[trigger] seen.union(url_set(fresh(s, seen))).contains(u) by {
            if url_set(d).contains(u) {
                assert(seen.union(url_set(fresh(d, seen))).contains(u));
                if url_set(fresh(d, seen)).contains(u) && fresh(s, seen) != fresh(d, seen) {
                    let i = choose|i: int| 0 <= i < fresh(d, seen).len() && #[trigger] fresh(d, seen)[i].1.url == u;
                    assert(fresh(s, seen)[i].1.url == u);
                }
            } else {
                assert(u == x.1.url);
                if seen.union(url_set(d)).contains(x.1.url) {
                    assert(seen.contains(u));
                } else {
                    assert(fresh(s, seen)[fresh(s, seen).len() - 1].1.url == u);
                }
            }
        }
    }
}

/// No entry is new when every URL has already been seen.
pub proof fn lemma_fresh_of_seen(s: Seq<(Date, EntryView)>, seen: Set<Seq<char>>)
    requires
        url_set(s).subset_of(seen),
    ensures
        fresh(s, seen).len() == 0,
    decreases s.len(),
{
    if s.len() > 0 {
        let d = s.drop_last();
        assert(d.push(s.last()) =~= s);
        lemma_url_set_push(d, s.last());
        assert(url_set(d).subset_of(seen));
        lemma_fresh_of_seen(d, seen);
    }
}

/// Committing is idempotent: once the new entries of `remote` have been
/// merged into `known`, none of `remote`'s entries is new any more.
pub proof fn law_commit_leaves_nothing_new(remote: EntryMapView, known: EntryMapView)
    ensures
        fresh(
            flatten(remote),
            url_set(flatten(map_add_all(known, fresh(flatten(remote), url_set(flatten(known)))))),
        ).len() == 0,
{
    let s = flatten(remote);
    let seen = url_set(flatten(known));
    let new = fresh(s, seen);
    lemma_flatten_urls(known);
    lemma_flatten_urls(map_add_all(known, new));
    lemma_map_add_all_urls(known, new);
    lemma_fresh_covers(s, seen);
    lemma_fresh_of_seen(s, url_set(flatten(map_add_all(known, new))));
}

/// The new entries have URLs that were not seen before, and no two of them
/// share a URL.
pub proof fn law_new_entries_are_new(s: Seq<(Date, EntryView)>, seen: Set<Seq<char>>)
    ensures
        forall|i: int| 0 <= i < fresh(s, seen).len() ==> !seen.contains(#[trigger] fresh(s, seen)[i].1.url),
        forall|i: int, j: int|
            0 <= i < j < fresh(s, seen).len() ==> #[trigger] fresh(s, seen)[i].1.url != #[trigger] fresh(s, seen)[j].1.url,
        forall|i: int| 0 <= i < fresh(s, seen).len() ==> s.contains(#[trigger] fresh(s, seen)[i]),
    decreases s.len(),
{
    if s.len() > 0 {
        let d = s.drop_last();
        let x = s.last();
        law_new_entries_are_new(d, seen);
        let fd = fresh(d, seen);
        assert forall|i: int| 0 <= i < fd.len() implies d.contains(#[trigger] fd[i]) && url_set(d).contains(fd[i].1.url) by {
            let q = choose|q: int| 0 <= q < d.len() && d[q] == fd[i];
            assert(d[q].1.url == fd[i].1.url);
        }
        assert forall|i: int| 0 <= i < fd.len() implies s.contains(#[trigger] fd[i]) by {
            let q = choose|q: int| 0 <= q < d.len() && d[q] == fd[i];
            assert(s[q] == fd[i]);
        }
        if !seen.union(url_set(d)).contains(x.1.url) {
            assert(s[s.len() - 1] == x);
        }
    }
}


/// Committing loses nothing and misses nothing: the stored URLs after a
/// commit are those stored before together with those found remotely.
pub proof fn law_commit_stores_every_url(remote: EntryMapView, known: EntryMapView)
    ensures
        map_urls(map_add_all(known, fresh(flatten(remote), url_set(flatten(known)))))
            == map_urls(known).union(map_urls(remote)),
{
    let s = flatten(remote);
    let seen = url_set(flatten(known));
    let new = fresh(s, seen);
    lemma_flatten_urls(known);
    lemma_flatten_urls(remote);
    lemma_map_add_all_urls(known, new);
    lemma_fresh_covers(s, seen);
    law_new_entries_are_new(s, seen);
    assert forall|u: Seq<char>| url_set(new).contains(u) implies #[trigger] url_set(s).contains(u) by {
        let i = choose|i: int| 0 <= i < new.len() && #[trigger] new[i].1.url == u;
        assert(s.contains(new[i]));
        let q = choose|q: int| 0 <= q < s.len() && s[q] == new[i];
        assert(s[q].1.url == u);
    }
    assert(map_urls(known).union(url_set(new)) =~= map_urls(known).union(map_urls(remote)));
}


proof fn lemma_map_add_distinct(m: EntryMapView, date: Date, e: EntryView)
    requires
        distinct_dates(m),
    ensures
        distinct_dates(map_add(m, date, e)),
{
    lemma_date_index_bound(m, date);
    let m2 = map_add(m, date, e);
    let k = date_index(m, date);
    assert forall|i: int, j: int| 0 <= i < j < m2.len() implies #[trigger] m2[i].0 != #[trigger] m2[j].0 by {
        if k < m.len() {
            assert(m2[i].0 == m[i].0 && m2[j].0 == m[j].0);
        } else if j < m.len() {
            assert(m2[i].0 == m[i].0 && m2[j].0 == m[j].0);
        } else {
            assert(m2[i].0 == m[i].0);
        }
    }
}

/// Adding entries keeps one group per date: a map whose groups have
/// distinct dates still has after any entries are added.
pub proof fn law_adding_keeps_one_group_per_date(m: EntryMapView, s: Seq<(Date, EntryView)>)
    requires
        distinct_dates(m),
    ensures
        distinct_dates(map_add_all(m, s)),
    decreases s.len(),
{
    if s.len() > 0 {
        law_adding_keeps_one_group_per_date(m, s.drop_last());
        lemma_map_add_distinct(map_add_all(m, s.drop_last()), s.last().0, s.last().1);
    }
}

} // verus!

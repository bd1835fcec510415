use vstd::prelude::*;

use scraper::{Html, Node};

use crate::text::{chars_eq, chars_of, string_chars, tokens, tokens_exec};

verus! {

/// An attribute of an element: its namespace (empty for ordinary HTML
/// attributes), its local name and its value.
#[derive(Debug)]
pub struct Attribute {
    pub namespace: String,
    pub name: String,
    pub value: String,
}

/// The plain value of an [`Attribute`].
pub struct AttrView {
    pub namespace: Seq<char>,
    pub name: Seq<char>,
    pub value: Seq<char>,
}

impl View for Attribute {
    type V = AttrView;

    open spec fn view(&self) -> AttrView {
        AttrView { namespace: self.namespace@, name: self.name@, value: self.value@ }
    }
}

/// What a node of a document holds.
#[derive(Debug)]
pub enum NodeKind {
    /// An element with its local name and attributes.
    Element { name: String, attrs: Vec<Attribute> },
    /// A run of text.
    Text { text: String },
    /// The document node itself, a comment, a doctype or an instruction.
    Other,
}

/// The plain value of a [`NodeKind`].
pub enum KindView {
    Element { name: Seq<char>, attrs: Seq<AttrView> },
    Text { text: Seq<char> },
    Other,
}

impl View for NodeKind {
    type V = KindView;

    open spec fn view(&self) -> KindView {
        match self {
            NodeKind::Element { name, attrs } => KindView::Element {
                name: name@,
                attrs: attrs@.map_values(|a: Attribute| a@),
            },
            NodeKind::Text { text } => KindView::Text { text: text@ },
            NodeKind::Other => KindView::Other,
        }
    }
}

/// A node of a document, its depth below the document node, and its rank
/// in the order the parser created the nodes (which differs from document
/// order where the parser moved content, as it does with content misplaced
/// inside a table).
#[derive(Debug)]
pub struct DomNode {
    pub depth: usize,
    pub created: usize,
    pub kind: NodeKind,
}

/// The plain value of a [`DomNode`].
pub struct NodeView {
    pub depth: usize,
    pub created: usize,
    pub kind: KindView,
}

impl View for DomNode {
    type V = NodeView;

    open spec fn view(&self) -> NodeView {
        NodeView { depth: self.depth, created: self.created, kind: self.kind@ }
    }
}

/// A parsed HTML document: its nodes in document order (each node before
/// its descendants, siblings in order), starting with the document node at
/// depth 0. The descendants of a node are the nodes that follow it up to
/// the next node that is not deeper.
#[derive(Debug)]
pub struct Document {
    pub nodes: Vec<DomNode>,
}

/// The plain value of a [`Document`].
pub type DocView = Seq<NodeView>;

impl View for Document {
    type V = DocView;

    open spec fn view(&self) -> DocView {
        self.nodes@.map_values(|n: DomNode| n@)
    }
}

/// What `scraper::Html::parse_document` makes of an HTML text, as a
/// [`DocView`].
pub uninterp spec fn parsed_document(html: Seq<char>) -> DocView;

/// Parses an HTML document with `scraper::Html::parse_document` and lists
/// the nodes of its tree in document order (`descendants` of the root),
/// with each node's number of ancestors as its depth, its position in the
/// parser's arena (`Tree::nodes`, the order of creation) as its rank, each
/// element's local name and attributes (namespace, local name, value), and
/// each text; comments, the doctype and the document node are `Other`.
/// Subtrees the parser detached from the document (as it does with the body
/// when a frameset replaces it) are not listed. The result is named
/// [`parsed_document`]; nothing more is claimed of it.
#[verifier::external_body]
pub(crate) fn parse_document(html: &str) -> (r: Document)
    ensures
        r@ == parsed_document(html@),
{
    let doc = Html::parse_document(html);
    let nodes = doc.tree.root().descendants().map(|n| DomNode {
        depth: n.ancestors().count(),
        created: doc.tree.nodes().position(|m| m == n).unwrap(),
        kind: match n.value() {
            Node::Element(e) => NodeKind::Element { name: e.name().to_string(), attrs: e.attrs.iter()
                .map(|(q, v)| Attribute { namespace: q.ns.to_string(), name: q.local.to_string(), value: v.to_string() }).collect() },
            Node::Text(t) => NodeKind::Text { text: t.text.to_string() },
            _ => NodeKind::Other,
        },
    });
    Document { nodes: nodes.collect() }
}

/// Whether node `j` is an element with the local name `tag`.
pub open spec fn is_named(d: DocView, j: int, tag: Seq<char>) -> bool {
    match d[j].kind {
        KindView::Element { name, .. } => name == tag,
        _ => false,
    }
}

/// Whether node `j` is an element.
pub open spec fn is_element(d: DocView, j: int) -> bool {
    d[j].kind is Element
}

/// The elements named `tag` among the nodes `lo .. hi`, in order.
pub open spec fn select_range(d: DocView, lo: int, hi: int, tag: Seq<char>) -> Seq<usize>
    decreases hi - lo,
{
    if hi <= lo {
        Seq::empty()
    } else {
        let p = select_range(d, lo, hi - 1, tag);
        if is_named(d, hi - 1, tag) {
            p.push((hi - 1) as usize)
        } else {
            p
        }
    }
}

/// Every element selected among `lo .. hi` lies in that range.
pub proof fn lemma_select_range_bounds(d: DocView, lo: int, hi: int, tag: Seq<char>)
    requires
        0 <= lo,
        hi <= usize::MAX,
    ensures
        forall|k: int|
            0 <= k < select_range(d, lo, hi, tag).len() ==> lo <= #[trigger] select_range(d, lo, hi, tag)[k] < hi,
    decreases hi - lo,
{
    if hi > lo {
        lemma_select_range_bounds(d, lo, hi - 1, tag);
        let p = select_range(d, lo, hi - 1, tag);
        assert forall|k: int| 0 <= k < select_range(d, lo, hi, tag).len() implies lo <= #[trigger] select_range(d, lo, hi, tag)[k] < hi by {
            if k < p.len() {
                assert(select_range(d, lo, hi, tag)[k] == p[k]);
            }
        }
    }
}

/// The position after the descendants of `i`, searched from `k` on.
pub open spec fn scan_end(d: DocView, i: int, k: int) -> int
    decreases d.len() - k,
{
    if k >= d.len() {
        d.len() as int
    } else if d[k].depth <= d[i].depth {
        k
    } else {
        scan_end(d, i, k + 1)
    }
}

/// The position after the last descendant of node `i`.
pub open spec fn subtree_end(d: DocView, i: int) -> int {
    scan_end(d, i, i + 1)
}

/// The first of the first `k` nodes whose rank of creation is `c`.
pub open spec fn created_first(d: DocView, c: int, k: nat) -> Option<int>
    decreases k,
{
    if k == 0 {
        None
    } else {
        match created_first(d, c, (k - 1) as nat) {
            Some(j) => Some(j),
            None => if d[k - 1].created == c {
                Some(k - 1)
            } else {
                None
            },
        }
    }
}

/// One more than the highest rank of creation among the first `k` nodes
/// (a rank of `usize::MAX` is not counted), or 0.
pub open spec fn creation_limit(d: DocView, k: nat) -> int
    decreases k,
{
    if k == 0 {
        0
    } else {
        let p = creation_limit(d, (k - 1) as nat);
        let c = d[k - 1].created;
        if c < usize::MAX && c + 1 > p {
            c + 1
        } else {
            p
        }
    }
}

/// The elements named `tag` among the nodes whose rank of creation is
/// below `c`, in the order of their ranks.
pub open spec fn select_created(d: DocView, tag: Seq<char>, c: nat) -> Seq<usize>
    decreases c,
{
    if c == 0 {
        Seq::empty()
    } else {
        let p = select_created(d, tag, (c - 1) as nat);
        match created_first(d, c - 1, d.len()) {
            Some(j) => if is_named(d, j, tag) {
                p.push(j as usize)
            } else {
                p
            },
            None => p,
        }
    }
}

/// The elements of the document named `tag`, in the order the parser
/// created them (`Html::select` with a type selector walks the parser's
/// arena).
pub open spec fn select_doc(d: DocView, tag: Seq<char>) -> Seq<usize> {
    select_created(d, tag, creation_limit(d, d.len()) as nat)
}

/// A node found by its rank of creation is one of the nodes searched.
proof fn lemma_created_first_bound(d: DocView, c: int, k: nat)
    ensures
        created_first(d, c, k) matches Some(j) ==> 0 <= j < k && d[j].created == c,
    decreases k,
{
    if k > 0 {
        lemma_created_first_bound(d, c, (k - 1) as nat);
    }
}

/// The elements selected by rank lie among the nodes.
proof fn lemma_select_created_bounds(d: DocView, tag: Seq<char>, c: nat)
    ensures
        forall|k: int| 0 <= k < select_created(d, tag, c).len() ==> #[trigger] select_created(d, tag, c)[k] < d.len(),
    decreases c,
{
    if c > 0 {
        lemma_select_created_bounds(d, tag, (c - 1) as nat);
        lemma_created_first_bound(d, c - 1, d.len());
        let p = select_created(d, tag, (c - 1) as nat);
        assert forall|k: int| 0 <= k < select_created(d, tag, c).len() implies #[trigger] select_created(d, tag, c)[k] < d.len() by {
            if k < p.len() {
                assert(select_created(d, tag, c)[k] == p[k]);
            }
        }
    }
}

/// The descendant elements of `i` named `tag`, in document order
/// (`ElementRef::select` with a type selector).
pub open spec fn select_within(d: DocView, i: int, tag: Seq<char>) -> Seq<usize> {
    select_range(d, i + 1, subtree_end(d, i), tag)
}

/// The first item of a sequence, if any.
pub open spec fn first_of<A>(s: Seq<A>) -> Option<A> {
    if s.len() > 0 {
        Some(s[0])
    } else {
        None
    }
}

/// The texts among the nodes `lo .. hi`, in order.
pub open spec fn texts_range(d: DocView, lo: int, hi: int) -> Seq<Seq<char>>
    decreases hi - lo,
{
    if hi <= lo {
        Seq::empty()
    } else {
        let p = texts_range(d, lo, hi - 1);
        match d[hi - 1].kind {
            KindView::Text { text } => p.push(text),
            _ => p,
        }
    }
}

/// The texts inside node `i`, in document order (`ElementRef::text`).
pub open spec fn texts_of(d: DocView, i: int) -> Seq<Seq<char>> {
    texts_range(d, i, subtree_end(d, i))
}

/// The value of the first attribute without namespace whose local name is
/// `name`.
pub open spec fn find_attr(attrs: Seq<AttrView>, name: Seq<char>) -> Option<Seq<char>>
    decreases attrs.len(),
{
    if attrs.len() == 0 {
        None
    } else if attrs[0].namespace.len() == 0 && attrs[0].name == name {
        Some(attrs[0].value)
    } else {
        find_attr(attrs.drop_first(), name)
    }
}

/// The value of the first attribute, in any namespace, whose local name is
/// `name`.
pub open spec fn find_local(attrs: Seq<AttrView>, name: Seq<char>) -> Option<Seq<char>>
    decreases attrs.len(),
{
    if attrs.len() == 0 {
        None
    } else if attrs[0].name == name {
        Some(attrs[0].value)
    } else {
        find_local(attrs.drop_first(), name)
    }
}

/// The value of the attribute `name` of element `i` (`ElementRef::attr`).
pub open spec fn attr_of(d: DocView, i: int, name: Seq<char>) -> Option<Seq<char>> {
    match d[i].kind {
        KindView::Element { attrs, .. } => find_attr(attrs, name),
        _ => None,
    }
}

/// The id of element `i` (`Element::id`).
pub open spec fn id_of(d: DocView, i: int) -> Option<Seq<char>> {
    match d[i].kind {
        KindView::Element { attrs, .. } => find_local(attrs, seq!['i', 'd']),
        _ => None,
    }
}

/// The nearest node before `j`, searched from `k` down, that is less deep
/// than `j`.
pub open spec fn scan_parent(d: DocView, j: int, k: int) -> Option<int>
    decreases k + 1,
{
    if k < 0 {
        None
    } else if d[k].depth < d[j].depth {
        Some(k)
    } else {
        scan_parent(d, j, k - 1)
    }
}

/// The parent of node `j`, when it is an element (`ElementRef::wrap` of
/// `parent`).
pub open spec fn parent_element(d: DocView, j: int) -> Option<int> {
    match scan_parent(d, j, j - 1) {
        Some(k) => if is_element(d, k) {
            Some(k)
        } else {
            None
        },
        None => None,
    }
}

/// A character's code with ASCII capitals lowered.
pub open spec fn lower_code(c: char) -> int {
    let v = c as u32;
    if 65 <= v && v <= 90 {
        v as int + 32
    } else {
        v as int
    }
}

/// Equality up to ASCII case.
pub open spec fn eq_ignore_ascii_case(a: Seq<char>, b: Seq<char>) -> bool {
    a.len() == b.len() && forall|k: int| 0 <= k < a.len() ==> lower_code(#[trigger] a[k]) == lower_code(b[k])
}

/// Whether an attribute is a `class` attribute listing `class`, up to
/// ASCII case.
pub open spec fn lists_class(a: AttrView, class: Seq<char>) -> bool {
    &&& a.name == seq!['c', 'l', 'a', 's', 's']
    &&& exists|t: int|
        0 <= t < tokens(a.value, false).len() && eq_ignore_ascii_case(
            #[trigger] tokens(a.value, false)[t],
            class,
        )
}

/// Whether element `i` has the class `class`, up to ASCII case
/// (`Element::has_class` with `AsciiCaseInsensitive`).
pub open spec fn has_class(d: DocView, i: int, class: Seq<char>) -> bool {
    &&& d[i].kind is Element
    &&& exists|k: int| 0 <= k < d[i].kind->attrs.len() && lists_class(#[trigger] d[i].kind->attrs[k], class)
}

impl Document {
    /// The number of nodes.
    pub fn len(&self) -> (r: usize)
        ensures
            r == self@.len(),
    {
        self.nodes.len()
    }

    /// The position after the last descendant of node `i`.
    pub fn subtree_end(&self, i: usize) -> (r: usize)
        requires
            i < self@.len(),
        ensures
            r == subtree_end(self@, i as int),
            i < r <= self@.len(),
    {
        let n = self.nodes.len();
        let di = self.nodes[i].depth;
        let mut k = i + 1;
        while k < n && self.nodes[k].depth > di
            invariant
                n == self@.len(),
                i < n,
                di == self@[i as int].depth,
                i < k <= n,
                scan_end(self@, i as int, i + 1) == scan_end(self@, i as int, k as int),
            decreases n - k,
        {
            k += 1;
        }
        k
    }

    /// The elements named `tag` among nodes `lo .. hi`.
    fn select_range(&self, lo: usize, hi: usize, tag: &Vec<char>) -> (r: Vec<usize>)
        requires
            lo <= hi <= self@.len(),
        ensures
            r@ == select_range(self@, lo as int, hi as int, tag@),
    {
        let mut r: Vec<usize> = Vec::new();
        let mut k = lo;
        while k < hi
            invariant
                lo <= k <= hi <= self@.len(),
                r@ == select_range(self@, lo as int, k as int, tag@),
            decreases hi - k,
        {
            match &self.nodes[k].kind {
                NodeKind::Element { name, .. } => {
                    let cs = string_chars(name);
                    if chars_eq(&cs, tag) {
                        r.push(k);
                    }
                },
                _ => {},
            }
            k += 1;
        }
        r
    }

    /// Whether node `k` is an element named `tag`.
    fn named(&self, k: usize, tag: &Vec<char>) -> (r: bool)
        requires
            k < self@.len(),
        ensures
            r == is_named(self@, k as int, tag@),
    {
        match &self.nodes[k].kind {
            NodeKind::Element { name, .. } => {
                let cs = string_chars(name);
                chars_eq(&cs, tag)
            },
            _ => false,
        }
    }

    /// The elements of the document named `tag`, in the order the parser
    /// created them.
    pub fn select_doc(&self, tag: &str) -> (r: Vec<usize>)
        ensures
            r@ == select_doc(self@, tag@),
            forall|k: int| 0 <= k < r@.len() ==> #[trigger] r@[k] < self@.len(),
    {
        let t = chars_of(tag);
        let n = self.nodes.len();
        let ghost d = self@;
        let mut limit: usize = 0;
        let mut k: usize = 0;
        while k < n
            invariant
                n == d.len(),
                d == self@,
                k <= n,
                limit == creation_limit(d, k as nat),
            decreases n - k,
        {
            let c = self.nodes[k].created;
            if c < usize::MAX && c + 1 > limit {
                limit = c + 1;
            }
            k += 1;
        }
        let mut at: Vec<usize> = Vec::new();
        while at.len() < limit
            invariant
                at.len() <= limit,
                forall|q: int| 0 <= q < at.len() ==> at@[q] == n,
            decreases limit - at.len(),
        {
            at.push(n);
        }
        let mut j: usize = 0;
        while j < n
            invariant
                n == d.len(),
                d == self@,
                j <= n,
                at.len() == limit,
                forall|q: int|
                    0 <= q < limit ==> #[trigger] at@[q] == (match created_first(d, q, j as nat) {
                        Some(x) => x,
                        None => n as int,
                    }),
            decreases n - j,
        {
            let c = self.nodes[j].created;
            let ghost before = at@;
            proof {
                assert forall|q: int| 0 <= q < limit implies (#[trigger] created_first(d, q, j as nat) matches Some(x) ==> x < j) by {
                    lemma_created_first_bound(d, q, j as nat);
                }
            }
            if c < limit && at[c] == n {
                at.set(c, j);
            }
            proof {
                assert forall|q: int| 0 <= q < limit implies #[trigger] at@[q] == (match created_first(d, q, (j + 1) as nat) {
                    Some(x) => x,
                    None => n as int,
                }) by {
                    assert(d[j as int].created == c);
                    assert(created_first(d, q, (j + 1) as nat) == (match created_first(d, q, j as nat) {
                        Some(x) => Some(x),
                        None => if d[j as int].created == q {
                            Some(j as int)
                        } else {
                            None
                        },
                    }));
                }
            }
            j += 1;
        }
        let mut r: Vec<usize> = Vec::new();
        let mut c: usize = 0;
        while c < limit
            invariant
                n == d.len(),
                d == self@,
                t@ == tag@,
                c <= limit,
                at.len() == limit,
                forall|q: int|
                    0 <= q < limit ==> #[trigger] at@[q] == (match created_first(d, q, n as nat) {
                        Some(x) => x,
                        None => n as int,
                    }),
                r@ == select_created(d, tag@, c as nat),
            decreases limit - c,
        {
            let x = at[c];
            proof {
                lemma_created_first_bound(d, c as int, n as nat);
            }
            assert(at@[c as int] == x);
            if x < n && self.named(x, &t) {
                r.push(x);
            }
            c += 1;
        }
        proof {
            lemma_select_created_bounds(d, tag@, limit as nat);
        }
        r
    }

    /// The descendant elements of `i` named `tag`, in document order.
    pub fn select_within(&self, i: usize, tag: &str) -> (r: Vec<usize>)
        requires
            i < self@.len(),
        ensures
            r@ == select_within(self@, i as int, tag@),
            forall|k: int| 0 <= k < r@.len() ==> #[trigger] r@[k] < self@.len(),
    {
        let t = chars_of(tag);
        let end = self.subtree_end(i);
        proof {
            lemma_select_range_bounds(self@, i + 1, end as int, tag@);
        }
        self.select_range(i + 1, end, &t)
    }

    /// The first descendant element of `i` named `tag`.
    pub fn first_within(&self, i: usize, tag: &str) -> (r: Option<usize>)
        requires
            i < self@.len(),
        ensures
            r == first_of(select_within(self@, i as int, tag@)),
            r matches Some(k) ==> k < self@.len(),
    {
        let s = self.select_within(i, tag);
        if s.len() > 0 {
            Some(s[0])
        } else {
            None
        }
    }

    /// The texts inside node `i`, in document order.
    pub fn texts(&self, i: usize) -> (r: Vec<String>)
        requires
            i < self@.len(),
        ensures
            r@.map_values(|s: String| s@) == texts_of(self@, i as int),
    {
        let end = self.subtree_end(i);
        let mut r: Vec<String> = Vec::new();
        let mut k = i;
        while k < end
            invariant
                i <= k <= end <= self@.len(),
                end == subtree_end(self@, i as int),
                r@.map_values(|s: String| s@) == texts_range(self@, i as int, k as int),
            decreases end - k,
        {
            let ghost prev = r@;
            match &self.nodes[k].kind {
                NodeKind::Text { text } => {
                    r.push(text.clone());
                    assert(r@.map_values(|s: String| s@) =~= prev.map_values(|s: String| s@).push(text@));
                },
                _ => {},
            }
            k += 1;
        }
        r
    }

    /// The value of the attribute `name` of node `i`, when it is an element.
    #[verifier::loop_isolation(false)]
    pub fn attr(&self, i: usize, name: &str) -> (r: Option<String>)
        requires
            i < self@.len(),
        ensures
            match r {
                Some(v) => attr_of(self@, i as int, name@) == Some(v@),
                None => attr_of(self@, i as int, name@) is None,
            },
    {
        let want = chars_of(name);
        match &self.nodes[i].kind {
            NodeKind::Element { attrs, .. } => {
                let ghost av = attrs@.map_values(|a: Attribute| a@);
                assert(self@[i as int] == self.nodes@[i as int]@);
                assert(attr_of(self@, i as int, name@) == find_attr(av, name@));
                let mut k: usize = 0;
                assert(av.skip(0) =~= av);
                while k < attrs.len()
                    invariant
                        av == attrs@.map_values(|a: Attribute| a@),
                        k <= attrs.len(),
                        find_attr(av, name@) == find_attr(av.skip(k as int), name@),
                        want@ == name@,
                    decreases attrs.len() - k,
                {
                    let a = &attrs[k];
                    assert(av.skip(k as int).drop_first() =~= av.skip(k + 1));
                    assert(av.skip(k as int)[0] == a@);
                    if a.namespace.as_str().is_empty() {
                        let cs = string_chars(&a.name);
                        if chars_eq(&cs, &want) {
                            assert(av.skip(k as int).len() > 0);
                            assert(find_attr(av.skip(k as int), name@) == Some(a.value@));
                            return Some(a.value.clone());
                        }
                    }
                    k += 1;
                }
                None
            },
            _ => None,
        }
    }

    /// The id of node `i`, when it is an element.
    #[verifier::loop_isolation(false)]
    pub fn element_id(&self, i: usize) -> (r: Option<String>)
        requires
            i < self@.len(),
        ensures
            match r {
                Some(v) => id_of(self@, i as int) == Some(v@),
                None => id_of(self@, i as int) is None,
            },
    {
        let mut want: Vec<char> = Vec::new();
        want.push('i');
        want.push('d');
        match &self.nodes[i].kind {
            NodeKind::Element { attrs, .. } => {
                let ghost av = attrs@.map_values(|a: Attribute| a@);
                assert(self@[i as int] == self.nodes@[i as int]@);
                assert(id_of(self@, i as int) == find_local(av, seq!['i', 'd']));
                let mut k: usize = 0;
                assert(av.skip(0) =~= av);
                while k < attrs.len()
                    invariant
                        av == attrs@.map_values(|a: Attribute| a@),
                        k <= attrs.len(),
                        find_local(av, seq!['i', 'd']) == find_local(av.skip(k as int), seq!['i', 'd']),
                        want@ == seq!['i', 'd'],
                    decreases attrs.len() - k,
                {
                    let a = &attrs[k];
                    assert(av.skip(k as int).drop_first() =~= av.skip(k + 1));
                    assert(av.skip(k as int)[0] == a@);
                    let cs = string_chars(&a.name);
                    if chars_eq(&cs, &want) {
                        assert(av.skip(k as int).len() > 0);
                        assert(find_local(av.skip(k as int), seq!['i', 'd']) == Some(a.value@));
                        return Some(a.value.clone());
                    }
                    k += 1;
                }
                None
            },
            _ => None,
        }
    }

    /// The parent of node `j`, when it is an element.
    pub fn parent_element(&self, j: usize) -> (r: Option<usize>)
        requires
            j < self@.len(),
        ensures
            match r {
                Some(k) => parent_element(self@, j as int) == Some(k as int) && k < j,
                None => parent_element(self@, j as int) is None,
            },
    {
        let dj = self.nodes[j].depth;
        let mut k: usize = j;
        while k > 0 && self.nodes[k - 1].depth >= dj
            invariant
                j < self@.len(),
                dj == self@[j as int].depth,
                k <= j,
                scan_parent(self@, j as int, j - 1) == scan_parent(self@, j as int, k - 1),
            decreases k,
        {
            k -= 1;
        }
        if k == 0 {
            return None;
        }
        let p = k - 1;
        match &self.nodes[p].kind {
            NodeKind::Element { .. } => Some(p),
            _ => None,
        }
    }

    /// Whether node `i` is an element with the class `class`, up to ASCII
    /// case.
    #[verifier::loop_isolation(false)]
    pub fn has_class(&self, i: usize, class: &str) -> (r: bool)
        requires
            i < self@.len(),
        ensures
            r == has_class(self@, i as int, class@),
    {
        let want = chars_of(class);
        let mut class_name: Vec<char> = Vec::new();
        class_name.push('c');
        class_name.push('l');
        class_name.push('a');
        class_name.push('s');
        class_name.push('s');
        match &self.nodes[i].kind {
            NodeKind::Element { name: ename, attrs } => {
                let ghost av = attrs@.map_values(|a: Attribute| a@);
                assert(self@[i as int] == self.nodes@[i as int]@);
                assert(self@[i as int].kind == KindView::Element { name: ename@, attrs: av });
                let mut k: usize = 0;
                while k < attrs.len()
                    invariant
                        av == attrs@.map_values(|a: Attribute| a@),
                        k <= attrs.len(),
                        want@ == class@,
                        class_name@ == seq!['c', 'l', 'a', 's', 's'],
                        forall|q: int| 0 <= q < k ==> !lists_class(#[trigger] av[q], class@),
                    decreases attrs.len() - k,
                {
                    let a = &attrs[k];
                    assert(av[k as int] == a@);
                    let cs = string_chars(&a.name);
                    if chars_eq(&cs, &class_name) {
                        assert(a@.name == seq!['c', 'l', 'a', 's', 's']);
                        let value = string_chars(&a.value);
                        let toks = tokens_exec(&value, false);
                        let ghost tv = toks@.map_values(|t: Vec<char>| t@);
                        let mut t: usize = 0;
                        while t < toks.len()
                            invariant
                                av == attrs@.map_values(|a: Attribute| a@),
                                k < attrs.len(),
                                av[k as int] == a@,
                                want@ == class@,
                                a@.name == seq!['c', 'l', 'a', 's', 's'],
                                tv == toks@.map_values(|t: Vec<char>| t@),
                                tv == tokens(a@.value, false),
                                t <= toks.len(),
                                forall|q: int| 0 <= q < t ==> !eq_ignore_ascii_case(#[trigger] tv[q], class@),
                            decreases toks.len() - t,
                        {
                            assert(tv[t as int] == toks@[t as int]@);
                            if eq_ignore_case_exec(&toks[t], &want) {
                                assert(a@.name == seq!['c', 'l', 'a', 's', 's']);
                                assert(eq_ignore_ascii_case(tokens(a@.value, false)[t as int], class@));
                                assert(lists_class(av[k as int], class@));
                                assert(self@[i as int].kind == KindView::Element { name: ename@, attrs: av });
                                assert(k < av.len());
                                assert(self@[i as int].kind is Element);
                                assert(self@[i as int].kind->attrs == av);
                                assert(lists_class(self@[i as int].kind->attrs[k as int], class@));
                                assert(has_class(self@, i as int, class@));
                                return true;
                            }
                            t += 1;
                        }
                    }
                    k += 1;
                }
                false
            },
            _ => false,
        }
    }
}

/// Whether two character sequences are equal up to ASCII case.
pub fn eq_ignore_case_exec(a: &Vec<char>, b: &Vec<char>) -> (r: bool)
    ensures
        r == eq_ignore_ascii_case(a@, b@),
{
    if a.len() != b.len() {
        return false;
    }
    let mut k: usize = 0;
    while k < a.len()
        invariant
            a.len() == b.len(),
            k <= a.len(),
            forall|t: int| 0 <= t < k ==> lower_code(#[trigger] a@[t]) == lower_code(b@[t]),
        decreases a.len() - k,
    {
        let x = a[k] as u32;
        let y = b[k] as u32;
        assert(x == a@[k as int] as u32 && y == b@[k as int] as u32);
        let lx = if 65 <= x && x <= 90 { x + 32 } else { x };
        let ly = if 65 <= y && y <= 90 { y + 32 } else { y };
        if lx != ly {
            return false;
        }
        k += 1;
    }
    true
}

} // verus!

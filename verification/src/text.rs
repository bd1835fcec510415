use vstd::prelude::*;

verus! {

broadcast use vstd::string::group_string_axioms;

/// Appends one character to a string (std's `String::push`).
#[verifier::external_body]
pub(crate) fn push_char(s: &mut String, c: char)
    ensures
        final(s)@ == old(s)@.push(c),
{
    s.push(c);
}

/// The characters of a string slice, in order.
pub fn chars_of(s: &str) -> (v: Vec<char>)
    ensures
        v@ == s@,
{
    let mut v: Vec<char> = Vec::new();
    for c in it: s.chars()
        invariant
            v@ == it.seq().take(it.index() as int),
    {
        v.push(c);
    }
    v
}

/// A string holding the given characters.
pub fn string_of(cs: &Vec<char>) -> (s: String)
    ensures
        s@ == cs@,
{
    let mut s = String::new();
    let mut i: usize = 0;
    while i < cs.len()
        invariant
            i <= cs.len(),
            s@ == cs@.take(i as int),
        decreases cs.len() - i,
    {
        push_char(&mut s, cs[i]);
        i += 1;
        assert(cs@.take(i as int) == cs@.take(i - 1).push(cs@[i - 1]));
    }
    assert(cs@.take(cs.len() as int) == cs@);
    s
}


/// A fresh string with the characters of a string slice.
pub fn str_to_string(s: &str) -> (r: String)
    ensures
        r@ == s@,
{
    s.to_string()
}

/// UTF-8 encoding distributes over concatenation.
pub proof fn lemma_encode_utf8_concat(a: Seq<char>, b: Seq<char>)
    ensures
        vstd::utf8::encode_utf8(a + b) == vstd::utf8::encode_utf8(a) + vstd::utf8::encode_utf8(b),
    decreases a.len(),
{
    if a.len() == 0 {
        assert(a + b =~= b);
    } else {
        lemma_encode_utf8_concat(a.drop_first(), b);
        assert((a + b).drop_first() =~= a.drop_first() + b);
        assert((a + b)[0] == a[0]);
        let ea = vstd::utf8::encode_scalar(a[0] as u32);
        assert(vstd::utf8::encode_utf8(a + b) == ea + vstd::utf8::encode_utf8((a + b).drop_first()));
        assert(ea + (vstd::utf8::encode_utf8(a.drop_first()) + vstd::utf8::encode_utf8(b))
            =~= (ea + vstd::utf8::encode_utf8(a.drop_first())) + vstd::utf8::encode_utf8(b));
    }
}


/// Whether two strings hold the same characters.
pub fn string_eq(a: &String, b: &String) -> (r: bool)
    ensures
        r == (a@ == b@),
{
    *a == *b
}


/// The characters of a string.
pub fn string_chars(s: &String) -> (v: Vec<char>)
    ensures
        v@ == s@,
{
    chars_of(s.as_str())
}

/// What `str::to_lowercase` returns for a string: its Unicode lowercase form.
pub uninterp spec fn lowercase(s: Seq<char>) -> Seq<char>;

/// Calls `str::to_lowercase`; its result is named [`lowercase`].
#[verifier::external_body]
pub(crate) fn to_lowercase(s: &str) -> (r: String)
    ensures
        r@ == lowercase(s@),
{
    s.to_lowercase()
}

/// Whether a character has the Unicode White_Space property, which is what
/// `char::is_whitespace` tests: the controls U+0009 to U+000D, the space,
/// U+0085, the no-break space, U+1680, the spaces U+2000 to U+200A, the
/// line and paragraph separators, U+202F, U+205F and U+3000.
pub open spec fn white_space(c: char) -> bool {
    let v = c as u32;
    ||| 0x9 <= v <= 0xD
    ||| v == 0x20
    ||| v == 0x85
    ||| v == 0xA0
    ||| v == 0x1680
    ||| 0x2000 <= v <= 0x200A
    ||| v == 0x2028
    ||| v == 0x2029
    ||| v == 0x202F
    ||| v == 0x205F
    ||| v == 0x3000
}

/// Calls `char::is_whitespace`, which tests the White_Space property.
#[verifier::external_body]
pub(crate) fn is_whitespace(c: char) -> (r: bool)
    ensures
        r == white_space(c),
{
    c.is_whitespace()
}

/// The characters without their leading white space.
pub open spec fn trim_start(s: Seq<char>) -> Seq<char>
    decreases s.len(),
{
    if s.len() > 0 && white_space(s[0]) {
        trim_start(s.drop_first())
    } else {
        s
    }
}

/// The characters without their trailing white space.
pub open spec fn trim_end(s: Seq<char>) -> Seq<char>
    decreases s.len(),
{
    if s.len() > 0 && white_space(s.last()) {
        trim_end(s.drop_last())
    } else {
        s
    }
}

/// The characters without leading and trailing white space (`str::trim`).
pub open spec fn trim(s: Seq<char>) -> Seq<char> {
    trim_end(trim_start(s))
}

/// Removes leading and trailing white space.
pub fn trim_chars(s: &Vec<char>) -> (r: Vec<char>)
    ensures
        r@ == trim(s@),
{
    let n = s.len();
    let mut a: usize = 0;
    assert(s@.subrange(0, n as int) =~= s@);
    while a < n && is_whitespace(s[a])
        invariant
            a <= n == s@.len(),
            trim_start(s@) == trim_start(s@.subrange(a as int, n as int)),
        decreases n - a,
    {
        assert(s@.subrange(a as int, n as int).drop_first() =~= s@.subrange(a + 1, n as int));
        a += 1;
    }
    assert(trim_start(s@) == s@.subrange(a as int, n as int));
    let mut b: usize = n;
    while b > a && is_whitespace(s[b - 1])
        invariant
            a <= b <= n == s@.len(),
            trim(s@) == trim_end(s@.subrange(a as int, b as int)),
        decreases b - a,
    {
        assert(s@.subrange(a as int, b as int).drop_last() =~= s@.subrange(a as int, b - 1));
        b -= 1;
    }
    let mut r: Vec<char> = Vec::new();
    let mut i = a;
    while i < b
        invariant
            a <= i <= b <= n == s@.len(),
            r@ == s@.subrange(a as int, i as int),
        decreases b - i,
    {
        r.push(s[i]);
        i += 1;
        assert(r@ =~= s@.subrange(a as int, i as int));
    }
    r
}

/// The characters with every `from` replaced by `to`.
pub open spec fn replace_char(s: Seq<char>, from: char, to: char) -> Seq<char> {
    s.map_values(|c: char| if c == from { to } else { c })
}

/// Replaces every `from` by `to`.
pub fn replace_chars(s: &Vec<char>, from: char, to: char) -> (r: Vec<char>)
    ensures
        r@ == replace_char(s@, from, to),
{
    let mut r: Vec<char> = Vec::new();
    let mut i: usize = 0;
    while i < s.len()
        invariant
            i <= s.len(),
            r@ == replace_char(s@.take(i as int), from, to),
        decreases s.len() - i,
    {
        let c = if s[i] == from { to } else { s[i] };
        r.push(c);
        i += 1;
        assert(r@ =~= replace_char(s@.take(i as int), from, to));
    }
    assert(s@.take(i as int) =~= s@);
    r
}


/// Whether `s` begins with `p`.
pub open spec fn starts_with(s: Seq<char>, p: Seq<char>) -> bool {
    p.len() <= s.len() && s.take(p.len() as int) == p
}

/// Whether `pat` occurs in `s` at position `i`.
pub open spec fn occurs_at(s: Seq<char>, pat: Seq<char>, i: int) -> bool {
    0 <= i && i + pat.len() <= s.len() && s.subrange(i, i + pat.len()) == pat
}

/// The first position, at `i` or later, where `pat` occurs in `s`.
pub open spec fn find_from(s: Seq<char>, pat: Seq<char>, i: int) -> Option<int>
    decreases s.len() + 1 - i,
{
    if i < 0 || i + pat.len() > s.len() {
        None
    } else if occurs_at(s, pat, i) {
        Some(i)
    } else {
        find_from(s, pat, i + 1)
    }
}

/// A position found by [`find_from`] is an occurrence at or after `i`, and
/// no occurrence lies between.
pub proof fn lemma_find_from(s: Seq<char>, pat: Seq<char>, i: int)
    requires
        0 <= i,
    ensures
        find_from(s, pat, i) matches Some(k) ==> i <= k && occurs_at(s, pat, k),
        forall|k: int|
            i <= k && (find_from(s, pat, i) matches Some(f) ==> k < f) ==> !occurs_at(s, pat, k),
    decreases s.len() + 1 - i,
{
    if i < 0 || i + pat.len() > s.len() {
    } else if occurs_at(s, pat, i) {
    } else {
        lemma_find_from(s, pat, i + 1);
    }
}

/// Whether `pat` occurs in `s` (`str::contains`).
pub open spec fn contains_seq(s: Seq<char>, pat: Seq<char>) -> bool {
    find_from(s, pat, 0) is Some
}

/// The part of `s` before the first occurrence of `pat`, or all of `s`
/// when it does not occur (the first item of `str::split`).
pub open spec fn before_first(s: Seq<char>, pat: Seq<char>) -> Seq<char> {
    match find_from(s, pat, 0) {
        Some(i) => s.take(i),
        None => s,
    }
}

/// `s` with every occurrence of the non-empty `pat` removed, the matches
/// taken from left to right without overlap (`str::replace(pat, "")`).
pub open spec fn remove_all(s: Seq<char>, pat: Seq<char>) -> Seq<char>
    decreases s.len(),
{
    if s.len() == 0 || pat.len() == 0 {
        s
    } else if occurs_at(s, pat, 0) {
        remove_all(s.skip(pat.len() as int), pat)
    } else {
        seq![s[0]] + remove_all(s.drop_first(), pat)
    }
}

/// The parts of a sequence joined with a separator (`[_]::join`).
pub open spec fn join(parts: Seq<Seq<char>>, sep: Seq<char>) -> Seq<char>
    decreases parts.len(),
{
    if parts.len() == 0 {
        Seq::empty()
    } else if parts.len() == 1 {
        parts[0]
    } else {
        join(parts.drop_last(), sep) + sep + parts.last()
    }
}

/// ASCII white space, as `str::split_ascii_whitespace` knows it.
pub open spec fn ascii_white_space(c: char) -> bool {
    c == ' ' || c == '\t' || c == '\n' || c == '\x0C' || c == '\r'
}

/// A separator of tokens: Unicode white space, or ASCII white space.
pub open spec fn separates(unicode: bool, c: char) -> bool {
    if unicode {
        white_space(c)
    } else {
        ascii_white_space(c)
    }
}

/// The tokens of `s` after the partial token `cur`: the maximal runs of
/// characters that are not separators.
pub open spec fn tokens_after(s: Seq<char>, cur: Seq<char>, unicode: bool) -> Seq<Seq<char>>
    decreases s.len(),
{
    if s.len() == 0 {
        if cur.len() > 0 {
            seq![cur]
        } else {
            Seq::empty()
        }
    } else if separates(unicode, s[0]) {
        (if cur.len() > 0 {
            seq![cur]
        } else {
            Seq::empty()
        }) + tokens_after(s.drop_first(), Seq::empty(), unicode)
    } else {
        tokens_after(s.drop_first(), cur.push(s[0]), unicode)
    }
}

/// The tokens of `s` (`str::split_whitespace` when `unicode`, else
/// `str::split_ascii_whitespace`).
pub open spec fn tokens(s: Seq<char>, unicode: bool) -> Seq<Seq<char>> {
    tokens_after(s, Seq::empty(), unicode)
}

/// The pieces of `s` around each `c`, starting with the partial piece
/// `cur`.
pub open spec fn pieces_after(s: Seq<char>, cur: Seq<char>, c: char) -> Seq<Seq<char>>
    decreases s.len(),
{
    if s.len() == 0 {
        seq![cur]
    } else if s[0] == c {
        seq![cur] + pieces_after(s.drop_first(), Seq::empty(), c)
    } else {
        pieces_after(s.drop_first(), cur.push(s[0]), c)
    }
}

/// The pieces of `s` between occurrences of `c` (`str::split` on a
/// character).
pub open spec fn split_char(s: Seq<char>, c: char) -> Seq<Seq<char>> {
    pieces_after(s, Seq::empty(), c)
}

/// A run of characters that are not separators joins the current token.
pub proof fn lemma_tokens_run(w: Seq<char>, rest: Seq<char>, cur: Seq<char>, unicode: bool)
    requires
        forall|i: int| 0 <= i < w.len() ==> !separates(unicode, #[trigger] w[i]),
    ensures
        tokens_after(w + rest, cur, unicode) == tokens_after(rest, cur + w, unicode),
    decreases w.len(),
{
    if w.len() == 0 {
        assert(w + rest =~= rest);
        assert(cur + w =~= cur);
    } else {
        assert((w + rest)[0] == w[0]);
        assert((w + rest).drop_first() =~= w.drop_first() + rest);
        lemma_tokens_run(w.drop_first(), rest, cur.push(w[0]), unicode);
        assert(cur.push(w[0]) + w.drop_first() =~= cur + w);
    }
}

/// The tokens of three runs of characters that are not white space, with
/// a space between each two, are those three runs.
pub proof fn lemma_three_tokens(a: Seq<char>, b: Seq<char>, c: Seq<char>)
    requires
        a.len() > 0,
        b.len() > 0,
        c.len() > 0,
        forall|i: int| 0 <= i < a.len() ==> !white_space(#[trigger] a[i]),
        forall|i: int| 0 <= i < b.len() ==> !white_space(#[trigger] b[i]),
        forall|i: int| 0 <= i < c.len() ==> !white_space(#[trigger] c[i]),
    ensures
        tokens(a + seq![' '] + b + seq![' '] + c, true) == seq![a, b, c],
{
    let e = Seq::<char>::empty();
    let s3 = seq![' '] + c;
    let s2 = b + s3;
    let s1 = seq![' '] + s2;
    assert(a + seq![' '] + b + seq![' '] + c =~= a + s1);
    lemma_tokens_run(a, s1, e, true);
    assert(e + a =~= a);
    assert(s1[0] == ' ' && s1.drop_first() =~= s2);
    assert(tokens_after(s1, a, true) == seq![a] + tokens_after(s2, e, true));
    lemma_tokens_run(b, s3, e, true);
    assert(e + b =~= b);
    assert(s3[0] == ' ' && s3.drop_first() =~= c);
    assert(tokens_after(s3, b, true) == seq![b] + tokens_after(c, e, true));
    assert(c + e =~= c);
    lemma_tokens_run(c, e, e, true);
    assert(e + c =~= c);
    assert(tokens_after(e, c, true) == seq![c]);
    assert(seq![a] + (seq![b] + seq![c]) =~= seq![a, b, c]);
}

/// Removing a pattern that does not start with a digit leaves a leading
/// run of digits in place.
pub proof fn lemma_remove_all_after_digits(ds: Seq<char>, t: Seq<char>, pat: Seq<char>)
    requires
        pat.len() > 0,
        !is_digit(pat[0]),
        forall|i: int| 0 <= i < ds.len() ==> is_digit(#[trigger] ds[i]),
    ensures
        remove_all(ds + t, pat) == ds + remove_all(t, pat),
    decreases ds.len(),
{
    if ds.len() == 0 {
        assert(ds + t =~= t);
        assert(ds + remove_all(t, pat) =~= remove_all(t, pat));
    } else {
        let s = ds + t;
        assert(s[0] == ds[0]);
        if pat.len() <= s.len() {
            assert(s.subrange(0, pat.len() as int)[0] == ds[0]);
        }
        assert(!occurs_at(s, pat, 0));
        assert(s.drop_first() =~= ds.drop_first() + t);
        lemma_remove_all_after_digits(ds.drop_first(), t, pat);
        assert(seq![ds[0]] + (ds.drop_first() + remove_all(t, pat)) =~= ds + remove_all(t, pat));
    }
}

/// Removing a two-character pattern from a text of at most two characters
/// empties it when it is the pattern, and leaves it as it is otherwise.
pub proof fn lemma_remove_all_short(t: Seq<char>, pat: Seq<char>)
    requires
        pat.len() == 2,
        t.len() <= 2,
    ensures
        remove_all(t, pat) == (if t == pat { Seq::<char>::empty() } else { t }),
{
    if t.len() == 0 {
        assert(t != pat);
        assert(remove_all(t, pat) == t);
    } else if t.len() == 1 {
        assert(!occurs_at(t, pat, 0));
        assert(remove_all(t.drop_first(), pat) == t.drop_first());
        assert(seq![t[0]] + t.drop_first() =~= t);
        assert(t != pat);
    } else {
        if occurs_at(t, pat, 0) {
            assert(t.subrange(0, 2) =~= t);
            assert(t.skip(2).len() == 0);
            assert(remove_all(t.skip(2), pat) == t.skip(2));
            assert(t.skip(2) =~= Seq::<char>::empty());
        } else {
            assert(t.subrange(0, 2) =~= t);
            assert(t != pat);
            let u = t.drop_first();
            assert(!occurs_at(u, pat, 0));
            assert(remove_all(u.drop_first(), pat) == u.drop_first());
            assert(seq![u[0]] + u.drop_first() =~= u);
            assert(remove_all(u, pat) == u);
            assert(seq![t[0]] + u =~= t);
        }
    }
}

/// Whether two character sequences are equal.
pub fn chars_eq(a: &Vec<char>, b: &Vec<char>) -> (r: bool)
    ensures
        r == (a@ == b@),
{
    if a.len() != b.len() {
        return false;
    }
    let mut i: usize = 0;
    while i < a.len()
        invariant
            a.len() == b.len(),
            i <= a.len(),
            forall|k: int| 0 <= k < i ==> a@[k] == b@[k],
        decreases a.len() - i,
    {
        if a[i] != b[i] {
            return false;
        }
        i += 1;
    }
    assert(a@ =~= b@);
    true
}

/// Whether `pat` occurs in `s` at position `i`.
pub fn occurs_at_exec(s: &Vec<char>, pat: &Vec<char>, i: usize) -> (r: bool)
    ensures
        r == occurs_at(s@, pat@, i as int),
{
    if i > s.len() || pat.len() > s.len() - i {
        return false;
    }
    let mut k: usize = 0;
    while k < pat.len()
        invariant
            i + pat.len() <= s.len(),
            k <= pat.len(),
            forall|t: int| 0 <= t < k ==> s@[i + t] == pat@[t],
        decreases pat.len() - k,
    {
        if s[i + k] != pat[k] {
            assert(s@.subrange(i as int, i + pat@.len())[k as int] != pat@[k as int]);
            return false;
        }
        k += 1;
    }
    assert(s@.subrange(i as int, i + pat@.len()) =~= pat@);
    true
}

/// The first position where `pat` occurs in `s`.
pub fn find_first(s: &Vec<char>, pat: &Vec<char>) -> (r: Option<usize>)
    ensures
        match r {
            Some(i) => find_from(s@, pat@, 0) == Some(i as int),
            None => find_from(s@, pat@, 0) is None,
        },
{
    if pat.len() == 0 {
        assert(s@.subrange(0, 0) =~= pat@);
        return Some(0);
    }
    if pat.len() > s.len() {
        return None;
    }
    let last = s.len() - pat.len();
    let mut i: usize = 0;
    while i <= last
        invariant
            last == s@.len() - pat@.len(),
            last < usize::MAX,
            i <= last + 1,
            find_from(s@, pat@, 0) == find_from(s@, pat@, i as int),
        decreases last + 1 - i,
    {
        if occurs_at_exec(s, pat, i) {
            return Some(i);
        }
        i += 1;
    }
    None
}

/// Whether `s` begins with `p`.
pub fn starts_with_exec(s: &Vec<char>, p: &Vec<char>) -> (r: bool)
    ensures
        r == starts_with(s@, p@),
{
    let r = occurs_at_exec(s, p, 0);
    assert(s@.subrange(0, p@.len() as int) =~= s@.take(p@.len() as int));
    r
}

/// The part of `s` before the first occurrence of `pat`.
pub fn before_first_exec(s: &Vec<char>, pat: &Vec<char>) -> (r: Vec<char>)
    ensures
        r@ == before_first(s@, pat@),
{
    proof {
        lemma_find_from(s@, pat@, 0);
    }
    let end = match find_first(s, pat) {
        Some(i) => i,
        None => s.len(),
    };
    let mut r: Vec<char> = Vec::new();
    let mut k: usize = 0;
    while k < end
        invariant
            end <= s.len(),
            k <= end,
            r@ == s@.take(k as int),
        decreases end - k,
    {
        r.push(s[k]);
        k += 1;
        assert(r@ =~= s@.take(k as int));
    }
    assert(s@.take(s@.len() as int) =~= s@);
    r
}

/// Removes every occurrence of `pat` from `s`.
pub fn remove_all_exec(s: &Vec<char>, pat: &Vec<char>) -> (r: Vec<char>)
    ensures
        r@ == remove_all(s@, pat@),
{
    let mut r: Vec<char> = Vec::new();
    if pat.len() == 0 {
        let mut k: usize = 0;
        while k < s.len()
            invariant
                k <= s.len(),
                r@ == s@.take(k as int),
            decreases s.len() - k,
        {
            r.push(s[k]);
            k += 1;
            assert(r@ =~= s@.take(k as int));
        }
        assert(s@.take(k as int) =~= s@);
        return r;
    }
    let mut i: usize = 0;
    assert(s@.skip(0) =~= s@);
    while i < s.len()
        invariant
            pat@.len() > 0,
            i <= s.len(),
            r@ + remove_all(s@.skip(i as int), pat@) == remove_all(s@, pat@),
        decreases s.len() - i,
    {
        let ghost rest = s@.skip(i as int);
        if occurs_at_exec(s, pat, i) {
            assert(rest.subrange(0, pat@.len() as int) =~= s@.subrange(i as int, i + pat@.len()));
            assert(rest.skip(pat@.len() as int) =~= s@.skip(i + pat@.len()));
            i += pat.len();
        } else {
            proof {
                assert(rest.len() > 0);
                if occurs_at(rest, pat@, 0int) {
                    assert(rest.subrange(0, pat@.len() as int) =~= s@.subrange(i as int, i + pat@.len()));
                }
            }
            assert(rest.drop_first() =~= s@.skip(i + 1));
            let ghost prev = r@;
            r.push(s[i]);
            assert(r@ + remove_all(s@.skip(i + 1), pat@) =~= prev + (seq![s@[i as int]] + remove_all(
                s@.skip(i + 1),
                pat@,
            )));
            i += 1;
        }
    }
    assert(s@.skip(i as int) =~= Seq::<char>::empty());
    assert(r@ + Seq::<char>::empty() =~= r@);
    r
}

/// Joins strings with a separator.
pub fn join_exec(parts: &Vec<String>, sep: &Vec<char>) -> (r: Vec<char>)
    ensures
        r@ == join(parts@.map_values(|x: String| x@), sep@),
{
    let ghost pv = parts@.map_values(|x: String| x@);
    let mut r: Vec<char> = Vec::new();
    let mut i: usize = 0;
    while i < parts.len()
        invariant
            pv == parts@.map_values(|x: String| x@),
            i <= parts.len(),
            r@ == join(pv.take(i as int), sep@),
        decreases parts.len() - i,
    {
        let cs = string_chars(&parts[i]);
        assert(pv.take(i + 1).drop_last() =~= pv.take(i as int));
        if i > 0 {
            append_chars(&mut r, sep);
        }
        append_chars(&mut r, &cs);
        if i == 0 {
            assert(r@ =~= pv.take(1)[0]);
        }
        i += 1;
    }
    assert(pv.take(i as int) =~= pv);
    r
}

/// Appends characters to a character vector.
pub fn append_chars(r: &mut Vec<char>, cs: &Vec<char>)
    ensures
        final(r)@ == old(r)@ + cs@,
{
    let mut k: usize = 0;
    while k < cs.len()
        invariant
            k <= cs.len(),
            r@ == old(r)@ + cs@.take(k as int),
        decreases cs.len() - k,
    {
        r.push(cs[k]);
        k += 1;
        assert(r@ =~= old(r)@ + cs@.take(k as int));
    }
    assert(cs@.take(k as int) =~= cs@);
}

/// Splits `s` into its tokens.
pub fn tokens_exec(s: &Vec<char>, unicode: bool) -> (r: Vec<Vec<char>>)
    ensures
        r@.map_values(|t: Vec<char>| t@) == tokens(s@, unicode),
{
    let mut r: Vec<Vec<char>> = Vec::new();
    let mut cur: Vec<char> = Vec::new();
    let mut i: usize = 0;
    assert(s@.skip(0) =~= s@);
    while i < s.len()
        invariant
            i <= s.len(),
            r@.map_values(|t: Vec<char>| t@) + tokens_after(s@.skip(i as int), cur@, unicode) == tokens(s@, unicode),
        decreases s.len() - i,
    {
        let c = s[i];
        let sep = if unicode { is_whitespace(c) } else { c == ' ' || c == '\t' || c == '\n' || c == '\x0C' || c == '\r' };
        let ghost rest = s@.skip(i as int);
        assert(rest[0] == c);
        assert(rest.drop_first() =~= s@.skip(i + 1));
        let ghost prev = r@.map_values(|t: Vec<char>| t@);
        if sep {
            if cur.len() > 0 {
                let done = cur;
                cur = Vec::new();
                r.push(done);
                assert(r@.map_values(|t: Vec<char>| t@) =~= prev.push(done@));
                assert(cur@ =~= Seq::<char>::empty());
            } else {
                assert(cur@ =~= Seq::<char>::empty());
            }
        } else {
            cur.push(c);
        }
        i += 1;
    }
    if cur.len() > 0 {
        let ghost prev = r@.map_values(|t: Vec<char>| t@);
        r.push(cur);
        assert(r@.map_values(|t: Vec<char>| t@) =~= prev.push(cur@));
    }
    assert(r@.map_values(|t: Vec<char>| t@) =~= tokens(s@, unicode));
    r
}

/// Splits `s` around each `c`.
pub fn split_char_exec(s: &Vec<char>, c: char) -> (r: Vec<Vec<char>>)
    ensures
        r@.map_values(|t: Vec<char>| t@) == split_char(s@, c),
{
    let mut r: Vec<Vec<char>> = Vec::new();
    let mut cur: Vec<char> = Vec::new();
    let mut i: usize = 0;
    assert(s@.skip(0) =~= s@);
    while i < s.len()
        invariant
            i <= s.len(),
            r@.map_values(|t: Vec<char>| t@) + pieces_after(s@.skip(i as int), cur@, c) == split_char(s@, c),
        decreases s.len() - i,
    {
        let d = s[i];
        let ghost rest = s@.skip(i as int);
        assert(rest[0] == d);
        assert(rest.drop_first() =~= s@.skip(i + 1));
        if d == c {
            let ghost prev = r@.map_values(|t: Vec<char>| t@);
            let done = cur;
            cur = Vec::new();
            r.push(done);
            assert(r@.map_values(|t: Vec<char>| t@) =~= prev.push(done@));
            assert(cur@ =~= Seq::<char>::empty());
        } else {
            cur.push(d);
        }
        i += 1;
    }
    let ghost prev = r@.map_values(|t: Vec<char>| t@);
    r.push(cur);
    assert(r@.map_values(|t: Vec<char>| t@) =~= prev.push(cur@));
    assert(r@.map_values(|t: Vec<char>| t@) =~= split_char(s@, c));
    r
}


/// The character of a decimal digit.
pub open spec fn digit_char(d: int) -> char {
    if d == 0 {
        '0'
    } else if d == 1 {
        '1'
    } else if d == 2 {
        '2'
    } else if d == 3 {
        '3'
    } else if d == 4 {
        '4'
    } else if d == 5 {
        '5'
    } else if d == 6 {
        '6'
    } else if d == 7 {
        '7'
    } else if d == 8 {
        '8'
    } else {
        '9'
    }
}

/// The decimal digits of a natural number, without leading zeros.
pub open spec fn nat_digits(n: nat) -> Seq<char>
    decreases n,
{
    if n < 10 {
        seq![digit_char(n as int)]
    } else {
        nat_digits(n / 10).push(digit_char((n % 10) as int))
    }
}

/// The decimal form of an integer, as `format!("{}", n)` writes it.
pub open spec fn decimal(n: int) -> Seq<char> {
    if n < 0 {
        seq!['-'] + nat_digits((-n) as nat)
    } else {
        nat_digits(n as nat)
    }
}

fn digit_char_exec(d: u64) -> (c: char)
    requires
        d < 10,
    ensures
        c == digit_char(d as int),
{
    if d == 0 {
        '0'
    } else if d == 1 {
        '1'
    } else if d == 2 {
        '2'
    } else if d == 3 {
        '3'
    } else if d == 4 {
        '4'
    } else if d == 5 {
        '5'
    } else if d == 6 {
        '6'
    } else if d == 7 {
        '7'
    } else if d == 8 {
        '8'
    } else {
        '9'
    }
}

/// The decimal form of a 32-bit integer.
pub fn decimal_exec(n: i32) -> (r: Vec<char>)
    ensures
        r@ == decimal(n as int),
{
    let wide: i64 = n as i64;
    let mag: u64 = if wide < 0 { (-wide) as u64 } else { wide as u64 };
    let mut m: u64 = mag;
    let mut low: Vec<char> = Vec::new();
    let mut done = false;
    while !done
        invariant
            !done ==> nat_digits(mag as nat) == nat_digits(m as nat) + low@.reverse(),
            done ==> nat_digits(mag as nat) == low@.reverse(),
        decreases m, (if done { 0int } else { 1int }),
    {
        let ghost before = low@;
        low.push(digit_char_exec(m % 10));
        if m < 10 {
            assert(low@.reverse() =~= seq![digit_char(m as int)] + before.reverse());
            done = true;
        } else {
            assert(low@.reverse() =~= seq![digit_char((m % 10) as int)] + before.reverse());
            assert(nat_digits(m as nat) == nat_digits((m / 10) as nat).push(digit_char((m % 10) as int)));
            assert(nat_digits((m / 10) as nat).push(digit_char((m % 10) as int)) + before.reverse()
                =~= nat_digits((m / 10) as nat) + (seq![digit_char((m % 10) as int)] + before.reverse()));
            m = m / 10;
        }
    }
    let mut r: Vec<char> = Vec::new();
    if wide < 0 {
        r.push('-');
    }
    let mut k: usize = low.len();
    let ghost head = r@;
    while k > 0
        invariant
            k <= low@.len(),
            r@ == head + low@.reverse().take(low@.len() - k),
        decreases k,
    {
        k -= 1;
        r.push(low[k]);
        assert(r@ =~= head + low@.reverse().take(low@.len() - k));
    }
    assert(low@.reverse().take(low@.len() as int) =~= low@.reverse());
    r
}

/// Whether a character is a decimal digit.
pub open spec fn is_digit(c: char) -> bool {
    '0' <= c && c <= '9'
}

/// The value of a digit character.
pub open spec fn digit_value(c: char) -> int {
    c as int - '0' as int
}

/// The value of a sequence of digits.
pub open spec fn digits_value(s: Seq<char>) -> int
    decreases s.len(),
{
    if s.len() == 0 {
        0
    } else {
        10 * digits_value(s.drop_last()) + digit_value(s.last())
    }
}

/// The characters after an optional leading sign.
pub open spec fn unsigned_part(s: Seq<char>) -> Seq<char> {
    if s.len() > 0 && (s[0] == '-' || s[0] == '+') {
        s.drop_first()
    } else {
        s
    }
}

/// What `str::parse::<i64>` accepts and returns: an optional sign followed
/// by at least one digit, whose value fits in an `i64`.
pub open spec fn parse_i64(s: Seq<char>) -> Option<int> {
    let neg = s.len() > 0 && s[0] == '-';
    let ds = unsigned_part(s);
    if ds.len() == 0 || !(forall|i: int| 0 <= i < ds.len() ==> is_digit(#[trigger] ds[i])) {
        None
    } else {
        let v = if neg {
            -digits_value(ds)
        } else {
            digits_value(ds)
        };
        if i64::MIN <= v <= i64::MAX {
            Some(v)
        } else {
            None
        }
    }
}

proof fn lemma_digits_value_grows(s: Seq<char>, k: int)
    requires
        0 <= k <= s.len(),
        forall|i: int| 0 <= i < s.len() ==> is_digit(#[trigger] s[i]),
    ensures
        0 <= digits_value(s.take(k)) <= digits_value(s),
    decreases s.len(),
{
    if s.len() == 0 {
        assert(s.take(k) =~= s);
    } else if k == s.len() {
        assert(s.take(k) =~= s);
        lemma_digits_value_grows(s.drop_last(), s.len() - 1);
        assert(s.drop_last().take(s.len() - 1) =~= s.drop_last());
    } else {
        lemma_digits_value_grows(s.drop_last(), k);
        assert(s.drop_last().take(k) =~= s.take(k));
        lemma_digits_value_grows(s.drop_last(), s.len() - 1);
        assert(s.drop_last().take(s.len() - 1) =~= s.drop_last());
    }
}

/// Parses a decimal integer as `str::parse::<i64>` does.
pub fn parse_i64_exec(s: &Vec<char>) -> (r: Option<i64>)
    ensures
        match r {
            Some(v) => parse_i64(s@) == Some(v as int),
            None => parse_i64(s@) is None,
        },
{
    let n = s.len();
    if n == 0 {
        return None;
    }
    let neg = s[0] == '-';
    let start: usize = if s[0] == '-' || s[0] == '+' { 1 } else { 0 };
    let ghost ds = unsigned_part(s@);
    assert(ds =~= s@.skip(start as int));
    if start >= n {
        return None;
    }
    let limit: i128 = 9223372036854775808;
    let mut acc: i128 = 0;
    let mut i = start;
    while i < n
        invariant
            start <= i <= n == s@.len(),
            ds == unsigned_part(s@),
            ds =~= s@.skip(start as int),
            forall|t: int| 0 <= t < i - start ==> is_digit(#[trigger] ds[t]),
            acc == digits_value(ds.take(i - start)),
            0 <= acc <= limit,
            limit == 9223372036854775808,
        decreases n - i,
    {
        let c = s[i];
        if !('0' <= c && c <= '9') {
            assert(!is_digit(ds[i - start]));
            assert(!(forall|t: int| 0 <= t < ds.len() ==> is_digit(#[trigger] ds[t])));
            assert(parse_i64(s@) is None);
            return None;
        }
        let d: i128 = if c == '0' { 0 } else if c == '1' { 1 } else if c == '2' { 2 } else if c == '3' { 3 } else if c == '4' { 4 } else if c == '5' { 5 } else if c == '6' { 6 } else if c == '7' { 7 } else if c == '8' { 8 } else { 9 };
        assert(d == digit_value(c));
        let next = acc * 10 + d;
        assert(ds.take(i - start + 1).drop_last() =~= ds.take(i - start));
        i += 1;
        if next > limit {
            proof {
                if forall|t: int| 0 <= t < ds.len() ==> is_digit(#[trigger] ds[t]) {
                    lemma_digits_value_grows(ds, i - start);
                    assert(digits_value(ds) > i64::MAX + 1);
                }
            }
            assert(parse_i64(s@) is None);
            return None;
        }
        acc = next;
    }
    assert(ds.take(n - start) =~= ds);
    if neg {
        if acc == limit {
            Some(-9223372036854775807i64 - 1)
        } else {
            Some(-(acc as i64))
        }
    } else if acc == limit {
        None
    } else {
        Some(acc as i64)
    }
}


/// A string slice followed by a string.
pub fn prefixed(prefix: &str, s: &String) -> (r: String)
    ensures
        r@ == prefix@ + s@,
{
    let mut r = str_to_string(prefix);
    r.append(s.as_str());
    r
}

} // verus!

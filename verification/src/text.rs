//! Text helpers over `Seq<char>`: building, comparing, trimming and splitting.

use vstd::prelude::*;
use vstd::utf8::*;

verus! {

/// `String::push` appends the character to the end of the string.
pub assume_specification[ std::string::String::push ](s: &mut std::string::String, c: char)
    ensures
        final(s)@ == old(s)@.push(c),
;

/// `String::push_str` appends all characters of `t` to the end of the string.
pub assume_specification[ std::string::String::push_str ](s: &mut std::string::String, t: &str)
    ensures
        final(s)@ == old(s)@ + t@,
;

/// The characters of `s`, in order.
pub fn char_vec(s: &str) -> (r: Vec<char>)
    ensures
        r@ == s@,
{
    let mut out: Vec<char> = Vec::new();
    for c in it: s.chars()
        invariant
            out@ == it.seq().take(it.index()),
            it.seq() == s@,
    {
        out.push(c);
    }
    out
}

/// Whether the two strings hold the same characters.
pub fn str_eq(a: &str, b: &str) -> (r: bool)
    ensures
        r == (a@ == b@),
{
    a.to_owned() == b.to_owned()
}

// ---------------------------------------------------------------------
// Sequences of strings
// ---------------------------------------------------------------------

/// The character sequences of a sequence of strings.
pub open spec fn views(v: Seq<String>) -> Seq<Seq<char>> {
    v.map_values(|s: String| s@)
}

/// The character sequence of an optional string.
pub open spec fn opt_view(v: Option<String>) -> Option<Seq<char>> {
    match v {
        Some(s) => Some(s@),
        None => None,
    }
}

/// A copy of an optional string.
pub fn clone_opt(v: &Option<String>) -> (r: Option<String>)
    ensures
        opt_view(r) == opt_view(*v),
        r == *v,
{
    match v {
        Some(s) => Some(s.clone()),
        None => None,
    }
}

/// A copy of a list of strings.
pub fn clone_strings(v: &Vec<String>) -> (r: Vec<String>)
    ensures
        r@ == v@,
{
    let mut out: Vec<String> = Vec::new();
    let mut i: usize = 0;
    while i < v.len()
        invariant
            i <= v.len(),
            out@ == v@.take(i as int),
        decreases v.len() - i,
    {
        out.push(v[i].clone());
        i = i + 1;
    }
    out
}

/// Whether `v` holds a string with the characters of `s`.
pub fn contains_string(v: &Vec<String>, s: &str) -> (r: bool)
    ensures
        r == views(v@).contains(s@),
{
    let mut i: usize = 0;
    while i < v.len()
        invariant
            i <= v.len(),
            forall|j: int| 0 <= j < i ==> #[trigger] views(v@)[j] != s@,
        decreases v.len() - i,
    {
        if str_eq(v[i].as_str(), s) {
            assert(views(v@)[i as int] == s@);
            return true;
        }
        i = i + 1;
    }
    false
}

/// The pieces one after another with `sep` between neighbours.
pub open spec fn joined(parts: Seq<Seq<char>>, sep: Seq<char>) -> Seq<char>
    decreases parts.len(),
{
    if parts.len() == 0 {
        Seq::empty()
    } else if parts.len() == 1 {
        parts[0]
    } else {
        joined(parts.drop_last(), sep) + sep + parts.last()
    }
}

/// Joins the strings with `sep` between neighbours.
pub fn join(parts: &Vec<String>, sep: &str) -> (r: String)
    ensures
        r@ == joined(views(parts@), sep@),
{
    let mut out: String = String::new();
    let mut i: usize = 0;
    assert(views(parts@).take(0) =~= Seq::<Seq<char>>::empty());
    while i < parts.len()
        invariant
            i <= parts.len(),
            out@ == joined(views(parts@).take(i as int), sep@),
        decreases parts.len() - i,
    {
        proof {
            let next = views(parts@).take(i + 1);
            assert(next.drop_last() =~= views(parts@).take(i as int));
            assert(next.last() == parts@[i as int]@);
        }
        if i > 0 {
            out.push_str(sep);
        } else {
            assert(Seq::<char>::empty() + parts@[0]@ =~= parts@[0]@);
        }
        out.push_str(parts[i].as_str());
        i = i + 1;
    }
    assert(views(parts@).take(parts@.len() as int) =~= views(parts@));
    out
}

// ---------------------------------------------------------------------
// Prefixes, suffixes and search
// ---------------------------------------------------------------------

/// Whether `s` begins with `p`.
pub open spec fn has_prefix(s: Seq<char>, p: Seq<char>) -> bool {
    s.len() >= p.len() && s.take(p.len() as int) == p
}

/// Whether `s` ends with `p`.
pub open spec fn has_suffix(s: Seq<char>, p: Seq<char>) -> bool {
    s.len() >= p.len() && s.skip(s.len() - p.len()) == p
}

/// Whether `n` occurs in `h` as a run of consecutive characters.
pub open spec fn has_sub(h: Seq<char>, n: Seq<char>) -> bool {
    exists|i: int| 0 <= i <= h.len() - n.len() && #[trigger] h.subrange(i, i + n.len()) == n
}

/// Whether `at` is a position of `h` where `n` stands.
fn matches_at(h: &Vec<char>, n: &Vec<char>, at: usize) -> (r: bool)
    requires
        at + n.len() <= h.len(),
    ensures
        r == (h@.subrange(at as int, at + n.len()) == n@),
{
    let mut j: usize = 0;
    while j < n.len()
        invariant
            j <= n.len(),
            at + n.len() <= h.len(),
            forall|k: int| 0 <= k < j ==> h@[at + k] == n@[k],
        decreases n.len() - j,
    {
        if h[at + j] != n[j] {
            assert(h@.subrange(at as int, at + n.len())[j as int] != n@[j as int]);
            return false;
        }
        j = j + 1;
    }
    assert(h@.subrange(at as int, at + n.len()) =~= n@);
    true
}

/// Whether `s` begins with `p`.
pub fn starts_with(s: &str, p: &str) -> (r: bool)
    ensures
        r == has_prefix(s@, p@),
{
    let h = char_vec(s);
    let n = char_vec(p);
    if h.len() < n.len() {
        return false;
    }
    assert(h@.subrange(0, 0 + n.len()) =~= s@.take(p@.len() as int));
    matches_at(&h, &n, 0)
}

/// Whether `s` ends with `p`.
pub fn ends_with(s: &str, p: &str) -> (r: bool)
    ensures
        r == has_suffix(s@, p@),
{
    let h = char_vec(s);
    let n = char_vec(p);
    if h.len() < n.len() {
        return false;
    }
    let at: usize = h.len() - n.len();
    assert(h@.subrange(at as int, at + n.len()) =~= s@.skip(s@.len() - p@.len()));
    matches_at(&h, &n, at)
}

/// Whether `n` occurs in `h`.
pub fn contains_str(h: &str, n: &str) -> (r: bool)
    ensures
        r == has_sub(h@, n@),
{
    let hv = char_vec(h);
    let nv = char_vec(n);
    if hv.len() < nv.len() {
        return false;
    }
    let last: usize = hv.len() - nv.len();
    let mut i: usize = 0;
    while i <= last
        invariant
            hv@ == h@,
            nv@ == n@,
            last == hv.len() - nv.len(),
            i <= last + 1,
            forall|k: int| 0 <= k < i ==> #[trigger] h@.subrange(k, k + n@.len()) != n@,
        decreases last + 1 - i,
    {
        if matches_at(&hv, &nv, i) {
            return true;
        }
        if i == last {
            return false;
        }
        i = i + 1;
    }
    false
}

/// Where the first occurrence of `n` in `h` begins.
pub open spec fn sub_index(h: Seq<char>, n: Seq<char>) -> Option<int>
    decreases h.len(),
{
    if has_prefix(h, n) {
        Some(0)
    } else if h.len() == 0 {
        None
    } else {
        match sub_index(h.skip(1), n) {
            Some(i) => Some(i + 1),
            None => None,
        }
    }
}

/// Where the first occurrence of `n` in `h`, from `from` on, begins.
pub fn find_from(h: &Vec<char>, n: &Vec<char>, from: usize) -> (r: Option<usize>)
    requires
        from <= h@.len(),
    ensures
        match r {
            Some(i) => from <= i && i + n@.len() <= h@.len() && sub_index(h@.skip(from as int), n@) == Some(i - from),
            None => sub_index(h@.skip(from as int), n@) is None,
        },
{
    let mut i: usize = from;
    let ghost mut gone: int = 0;
    while i <= h.len()
        invariant
            from <= i <= h@.len() + 1,
            from <= h@.len(),
            gone == i - from,
            i <= h@.len() ==> (match sub_index(h@.skip(i as int), n@) {
                Some(k) => sub_index(h@.skip(from as int), n@) == Some(k + gone),
                None => sub_index(h@.skip(from as int), n@) is None,
            }),
            i == h@.len() + 1 ==> sub_index(h@.skip(from as int), n@) is None,
        decreases h@.len() + 1 - i,
    {
        let ghost rest = h@.skip(i as int);
        let at = if n.len() <= h.len() - i {
            matches_at(h, n, i)
        } else {
            false
        };
        assert(at == has_prefix(rest, n@)) by {
            if n@.len() <= rest.len() {
                assert(rest.take(n@.len() as int) =~= h@.subrange(i as int, i + n@.len()));
            }
        }
        if at {
            return Some(i);
        }
        if i == h.len() {
            return None;
        }
        assert(rest.skip(1) =~= h@.skip(i + 1));
        i = i + 1;
        proof {
            gone = gone + 1;
        }
    }
    None
}

/// Whether the character occurs in `s`.
pub fn contains_char(s: &str, c: char) -> (r: bool)
    ensures
        r == s@.contains(c),
{
    let v = char_vec(s);
    let mut i: usize = 0;
    while i < v.len()
        invariant
            i <= v.len(),
            v@ == s@,
            forall|j: int| 0 <= j < i ==> v@[j] != c,
        decreases v.len() - i,
    {
        if v[i] == c {
            return true;
        }
        i = i + 1;
    }
    false
}

/// The characters of `v` from `from` up to but not including `to`.
pub fn slice_of(v: &Vec<char>, from: usize, to: usize) -> (r: String)
    requires
        from <= to <= v.len(),
    ensures
        r@ == v@.subrange(from as int, to as int),
{
    let mut out: String = String::new();
    let mut i: usize = from;
    while i < to
        invariant
            from <= i <= to <= v.len(),
            out@ == v@.subrange(from as int, i as int),
        decreases to - i,
    {
        out.push(v[i]);
        assert(v@.subrange(from as int, i + 1) =~= v@.subrange(from as int, i as int).push(v@[i as int]));
        i = i + 1;
    }
    out
}

/// What follows the prefix `p`, where `s` begins with it.
pub open spec fn after_prefix(s: Seq<char>, p: Seq<char>) -> Option<Seq<char>> {
    if has_prefix(s, p) {
        Some(s.skip(p.len() as int))
    } else {
        None
    }
}

/// What stands before the suffix `p`, where `s` ends with it.
pub open spec fn before_suffix(s: Seq<char>, p: Seq<char>) -> Option<Seq<char>> {
    if has_suffix(s, p) {
        Some(s.take(s.len() - p.len()))
    } else {
        None
    }
}

/// Strips the prefix `p`.
pub fn strip_prefix(s: &str, p: &str) -> (r: Option<String>)
    ensures
        opt_view(r) == after_prefix(s@, p@),
{
    if starts_with(s, p) {
        let v = char_vec(s);
        let n: usize = char_vec(p).len();
        assert(v@.subrange(n as int, v@.len() as int) =~= s@.skip(n as int));
        Some(slice_of(&v, n, v.len()))
    } else {
        None
    }
}

/// Strips the suffix `p`.
pub fn strip_suffix(s: &str, p: &str) -> (r: Option<String>)
    ensures
        opt_view(r) == before_suffix(s@, p@),
{
    if ends_with(s, p) {
        let v = char_vec(s);
        let n: usize = char_vec(p).len();
        let end: usize = v.len() - n;
        assert(v@.subrange(0, end as int) =~= s@.take(end as int));
        Some(slice_of(&v, 0, end))
    } else {
        None
    }
}

// ---------------------------------------------------------------------
// White space
// ---------------------------------------------------------------------

/// Whether Unicode gives the character the property `White_Space`.
pub open spec fn is_space(c: char) -> bool {
    ||| '\u{9}' <= c <= '\u{d}'
    ||| c == ' '
    ||| c == '\u{85}'
    ||| c == '\u{a0}'
    ||| c == '\u{1680}'
    ||| '\u{2000}' <= c <= '\u{200a}'
    ||| c == '\u{2028}'
    ||| c == '\u{2029}'
    ||| c == '\u{202f}'
    ||| c == '\u{205f}'
    ||| c == '\u{3000}'
}

/// Whether Unicode gives the character the property `White_Space`.
pub fn char_is_space(c: char) -> (r: bool)
    ensures
        r == is_space(c),
{
    ('\u{9}' <= c && c <= '\u{d}') || c == ' ' || c == '\u{85}' || c == '\u{a0}' || c == '\u{1680}' || (
    '\u{2000}' <= c && c <= '\u{200a}') || c == '\u{2028}' || c == '\u{2029}' || c == '\u{202f}' || c
        == '\u{205f}' || c == '\u{3000}'
}

/// `s` without its leading white space.
pub open spec fn trimmed_start(s: Seq<char>) -> Seq<char>
    decreases s.len(),
{
    if s.len() > 0 && is_space(s[0]) {
        trimmed_start(s.skip(1))
    } else {
        s
    }
}

/// `s` without its trailing white space.
pub open spec fn trimmed_end(s: Seq<char>) -> Seq<char>
    decreases s.len(),
{
    if s.len() > 0 && is_space(s.last()) {
        trimmed_end(s.drop_last())
    } else {
        s
    }
}

/// `s` without white space at either end.
pub open spec fn trimmed(s: Seq<char>) -> Seq<char> {
    trimmed_end(trimmed_start(s))
}

/// A text that neither begins nor ends with white space is trimmed already.
pub proof fn lemma_trimmed_plain(s: Seq<char>)
    requires
        s.len() == 0 || (!is_space(s[0]) && !is_space(s.last())),
    ensures
        trimmed(s) == s,
{
}

proof fn lemma_trimmed_start(s: Seq<char>) -> (n: int)
    ensures
        0 <= n <= s.len(),
        trimmed_start(s) == s.skip(n),
        forall|i: int| 0 <= i < n ==> is_space(#[trigger] s[i]),
        n < s.len() ==> !is_space(s[n]),
    decreases s.len(),
{
    if s.len() > 0 && is_space(s[0]) {
        let n = lemma_trimmed_start(s.skip(1));
        assert(s.skip(1).skip(n) =~= s.skip(n + 1));
        assert forall|i: int| 0 <= i < n + 1 implies is_space(#[trigger] s[i]) by {
            if i > 0 {
                assert(s.skip(1)[i - 1] == s[i]);
            }
        }
        n + 1
    } else {
        assert(s.skip(0) =~= s);
        0
    }
}

proof fn lemma_trimmed_end(s: Seq<char>) -> (n: int)
    ensures
        0 <= n <= s.len(),
        trimmed_end(s) == s.take(n),
        forall|i: int| n <= i < s.len() ==> is_space(#[trigger] s[i]),
        n > 0 ==> !is_space(s[n - 1]),
    decreases s.len(),
{
    if s.len() > 0 && is_space(s.last()) {
        let n = lemma_trimmed_end(s.drop_last());
        assert(s.drop_last().take(n) =~= s.take(n));
        assert forall|i: int| n <= i < s.len() implies is_space(#[trigger] s[i]) by {
            if i < s.len() - 1 {
                assert(s.drop_last()[i] == s[i]);
            }
        }
        n
    } else {
        assert(s.take(s.len() as int) =~= s);
        s.len() as int
    }
}

/// Trimming takes white space off both ends of a text, all of it and nothing else.
pub proof fn law_trimming_takes_white_space_alone(s: Seq<char>) -> (r: (int, int))
    ensures
        0 <= r.0 <= r.1 <= s.len(),
        trimmed(s) == s.subrange(r.0, r.1),
        forall|i: int| 0 <= i < r.0 || r.1 <= i < s.len() ==> is_space(#[trigger] s[i]),
        trimmed(s).len() > 0 ==> !is_space(s[r.0]) && !is_space(s[r.1 - 1]),
{
    let from = lemma_trimmed_start(s);
    let rest = s.skip(from);
    let n = lemma_trimmed_end(rest);
    assert(rest.take(n) =~= s.subrange(from, from + n));
    assert forall|i: int| 0 <= i < from || from + n <= i < s.len() implies is_space(#[trigger] s[i]) by {
        if i >= from + n {
            assert(rest[i - from] == s[i]);
        }
    }
    if n > 0 {
        assert(rest[n - 1] == s[from + n - 1]);
        assert(rest[0] == s[from]);
        if is_space(s[from]) {
            assert(from < s.len());
        }
    }
    (from, from + n)
}

/// Removes leading white space.
pub fn trim_start(s: &str) -> (r: String)
    ensures
        r@ == trimmed_start(s@),
{
    let v = char_vec(s);
    let mut i: usize = 0;
    assert(s@.skip(0) =~= s@);
    while i < v.len() && char_is_space(v[i])
        invariant
            i <= v.len(),
            v@ == s@,
            trimmed_start(s@) == trimmed_start(s@.skip(i as int)),
        decreases v.len() - i,
    {
        assert(s@.skip(i as int).skip(1) =~= s@.skip(i + 1));
        i = i + 1;
    }
    assert(v@.subrange(i as int, v@.len() as int) =~= s@.skip(i as int));
    slice_of(&v, i, v.len())
}

/// Removes trailing white space.
pub fn trim_end(s: &str) -> (r: String)
    ensures
        r@ == trimmed_end(s@),
{
    let v = char_vec(s);
    let mut n: usize = v.len();
    assert(s@.take(s@.len() as int) =~= s@);
    while n > 0 && char_is_space(v[n - 1])
        invariant
            n <= v.len(),
            v@ == s@,
            trimmed_end(s@) == trimmed_end(s@.take(n as int)),
        decreases n,
    {
        assert(s@.take(n as int).drop_last() =~= s@.take(n - 1));
        n = n - 1;
    }
    assert(v@.subrange(0, n as int) =~= s@.take(n as int));
    slice_of(&v, 0, n)
}

/// Removes white space at both ends.
pub fn trim(s: &str) -> (r: String)
    ensures
        r@ == trimmed(s@),
{
    let head = trim_start(s);
    trim_end(head.as_str())
}

// ---------------------------------------------------------------------
// Splitting
// ---------------------------------------------------------------------

/// The characters without those at the end that are the given one.
pub open spec fn without_end(s: Seq<char>, c: char) -> Seq<char>
    decreases s.len(),
{
    if s.len() > 0 && s.last() == c {
        without_end(s.drop_last(), c)
    } else {
        s
    }
}

/// The characters without those at the beginning that are the given one.
pub open spec fn without_start(s: Seq<char>, c: char) -> Seq<char>
    decreases s.len(),
{
    if s.len() > 0 && s[0] == c {
        without_start(s.skip(1), c)
    } else {
        s
    }
}

/// The text without the characters at its end that are the given one.
pub fn trim_end_of(s: &str, c: char) -> (r: String)
    ensures
        r@ == without_end(s@, c),
{
    let v = char_vec(s);
    let mut to: usize = v.len();
    assert(v@.take(to as int) =~= s@);
    while to > 0 && v[to - 1] == c
        invariant
            v@ == s@,
            to <= v@.len(),
            without_end(s@, c) == without_end(v@.take(to as int), c),
        decreases to,
    {
        assert(v@.take(to as int).drop_last() =~= v@.take(to - 1));
        to = to - 1;
    }
    assert(v@.subrange(0, to as int) =~= v@.take(to as int));
    slice_of(&v, 0, to)
}

/// The text without the characters at its beginning that are the given one.
pub fn trim_start_of(s: &str, c: char) -> (r: String)
    ensures
        r@ == without_start(s@, c),
{
    let v = char_vec(s);
    let mut from: usize = 0;
    assert(v@.skip(0) =~= s@);
    while from < v.len() && v[from] == c
        invariant
            v@ == s@,
            from <= v@.len(),
            without_start(s@, c) == without_start(v@.skip(from as int), c),
        decreases v@.len() - from,
    {
        assert(v@.skip(from as int).skip(1) =~= v@.skip(from + 1));
        from = from + 1;
    }
    assert(v@.subrange(from as int, v@.len() as int) =~= v@.skip(from as int));
    slice_of(&v, from, v.len())
}

/// The pieces of `s` between occurrences of `sep`; one more piece than there
/// are occurrences.
pub open spec fn split_on(s: Seq<char>, sep: char) -> Seq<Seq<char>>
    decreases s.len(),
{
    if s.len() == 0 {
        seq![s]
    } else {
        let before = split_on(s.drop_last(), sep);
        if s.last() == sep {
            before.push(Seq::empty())
        } else {
            before.drop_last().push(before.last().push(s.last()))
        }
    }
}

/// There is always at least one piece.
pub proof fn lemma_split_nonempty(s: Seq<char>, sep: char)
    ensures
        split_on(s, sep).len() >= 1,
    decreases s.len(),
{
    if s.len() > 0 {
        lemma_split_nonempty(s.drop_last(), sep);
    }
}

/// Cutting a text in two at a `sep` cuts its pieces in two.
pub proof fn lemma_split_concat(a: Seq<char>, b: Seq<char>, sep: char)
    ensures
        split_on(a.push(sep) + b, sep) == split_on(a, sep) + split_on(b, sep),
    decreases b.len(),
{
    let s = a.push(sep) + b;
    lemma_split_nonempty(b, sep);
    if b.len() == 0 {
        assert(s =~= a.push(sep));
        assert(s.drop_last() =~= a);
        assert(b =~= Seq::<char>::empty());
        assert(split_on(b, sep) == seq![b]);
        assert(split_on(s, sep) =~= split_on(a, sep) + split_on(b, sep));
    } else {
        lemma_split_concat(a, b.drop_last(), sep);
        lemma_split_nonempty(b.drop_last(), sep);
        assert(s.drop_last() =~= a.push(sep) + b.drop_last());
        assert(split_on(s, sep) =~= split_on(a, sep) + split_on(b, sep));
    }
}

/// A text without `sep` is its only piece.
pub proof fn lemma_split_plain(s: Seq<char>, sep: char)
    requires
        !s.contains(sep),
    ensures
        split_on(s, sep) == seq![s],
    decreases s.len(),
{
    if s.len() > 0 {
        let t = s.drop_last();
        assert(s.last() == s[s.len() - 1]);
        assert(!t.contains(sep)) by {
            if t.contains(sep) {
                let i = choose|i: int| 0 <= i < t.len() && t[i] == sep;
                assert(s[i] == sep);
            }
        }
        lemma_split_plain(t, sep);
        assert(t.push(s.last()) =~= s);
        assert(split_on(s, sep) =~= seq![s]);
    }
}

/// The pieces of a text make the text again when they are joined with what it was
/// split at, and that stands in none of them.
pub proof fn law_split_pieces_make_the_text(s: Seq<char>, sep: char)
    ensures
        split_on(s, sep).len() >= 1,
        joined(split_on(s, sep), seq![sep]) == s,
        forall|i: int| 0 <= i < split_on(s, sep).len() ==> !(#[trigger] split_on(s, sep)[i]).contains(sep),
    decreases s.len(),
{
    let pieces = split_on(s, sep);
    if s.len() == 0 {
        assert(joined(pieces, seq![sep]) == pieces[0]);
    } else {
        law_split_pieces_make_the_text(s.drop_last(), sep);
        let before = split_on(s.drop_last(), sep);
        assert(s =~= s.drop_last().push(s.last()));
        if s.last() == sep {
            assert(pieces.drop_last() =~= before);
            assert(joined(pieces, seq![sep]) =~= s.drop_last() + seq![sep]);
            assert forall|i: int| 0 <= i < pieces.len() implies !(#[trigger] pieces[i]).contains(sep) by {
                if i < before.len() {
                    assert(pieces[i] == before[i]);
                }
            }
        } else {
            let n = before.len() - 1;
            let last = before[n].push(s.last());
            assert(pieces.last() == last);
            assert(pieces.drop_last() =~= before.drop_last());
            if n == 0 {
                assert(joined(pieces, seq![sep]) =~= s);
            } else {
                assert(joined(pieces, seq![sep]) =~= joined(before, seq![sep]).push(s.last()));
            }
            assert forall|i: int| 0 <= i < pieces.len() implies !(#[trigger] pieces[i]).contains(sep) by {
                if i < n {
                    assert(pieces[i] == before[i]);
                } else {
                    assert(pieces[i] == last);
                    if last.contains(sep) {
                        let k = choose|k: int| 0 <= k < last.len() && last[k] == sep;
                        assert(before[n][k] == sep);
                    }
                }
            }
        }
    }
}

/// Splits `s` at every occurrence of `sep`.
pub fn split(s: &str, sep: char) -> (r: Vec<String>)
    ensures
        views(r@) == split_on(s@, sep),
        r.len() >= 1,
{
    let v = char_vec(s);
    let mut out: Vec<String> = Vec::new();
    let mut piece: String = String::new();
    let mut i: usize = 0;
    assert(views(out@) =~= Seq::<Seq<char>>::empty());
    assert(s@.take(0) =~= Seq::<char>::empty());
    assert(views(out@).push(piece@) =~= split_on(s@.take(0), sep));
    while i < v.len()
        invariant
            i <= v.len(),
            v@ == s@,
            views(out@).push(piece@) == split_on(s@.take(i as int), sep),
        decreases v.len() - i,
    {
        let c: char = v[i];
        let ghost before = views(out@).push(piece@);
        proof {
            let next = s@.take(i + 1);
            assert(next.drop_last() =~= s@.take(i as int));
            assert(next.last() == c);
            assert(before.drop_last() =~= views(out@));
        }
        if c == sep {
            out.push(piece);
            assert(views(out@) =~= before);
            piece = String::new();
            assert(piece@ =~= Seq::<char>::empty());
        } else {
            piece.push(c);
        }
        i = i + 1;
    }
    assert(s@.take(s@.len() as int) =~= s@);
    let ghost before = out@;
    let ghost last = piece@;
    out.push(piece);
    assert(views(out@) =~= views(before).push(last));
    out
}

/// The position of the first `sep` in `s`, or the length of `s`.
pub open spec fn first_index(s: Seq<char>, sep: char) -> int
    decreases s.len(),
{
    if s.len() == 0 {
        0
    } else if s[0] == sep {
        0
    } else {
        1 + first_index(s.skip(1), sep)
    }
}

/// What stands before and after the first `sep`.
pub open spec fn split_first(s: Seq<char>, sep: char) -> Option<(Seq<char>, Seq<char>)> {
    let i = first_index(s, sep);
    if i < s.len() {
        Some((s.take(i), s.skip(i + 1)))
    } else {
        None
    }
}

/// `first_index` is the least position that holds `sep`.
pub proof fn lemma_first_index(s: Seq<char>, sep: char)
    ensures
        0 <= first_index(s, sep) <= s.len(),
        first_index(s, sep) < s.len() ==> s[first_index(s, sep)] == sep,
        forall|j: int| 0 <= j < first_index(s, sep) ==> s[j] != sep,
    decreases s.len(),
{
    if s.len() > 0 && s[0] != sep {
        lemma_first_index(s.skip(1), sep);
        assert forall|j: int| 0 <= j < first_index(s, sep) implies s[j] != sep by {
            if j > 0 {
                assert(s.skip(1)[j - 1] == s[j]);
            }
        }
    }
}

/// Splits `s` at the first `sep`.
pub fn split_once(s: &str, sep: char) -> (r: Option<(String, String)>)
    ensures
        match r {
            Some((a, b)) => split_first(s@, sep) == Some((a@, b@)),
            None => split_first(s@, sep) is None,
        },
{
    let v = char_vec(s);
    let mut i: usize = 0;
    proof {
        lemma_first_index(s@, sep);
    }
    while i < v.len() && v[i] != sep
        invariant
            i <= v.len(),
            v@ == s@,
            i <= first_index(s@, sep) <= s@.len(),
            first_index(s@, sep) < s@.len() ==> s@[first_index(s@, sep)] == sep,
            forall|j: int| 0 <= j < first_index(s@, sep) ==> s@[j] != sep,
        decreases v.len() - i,
    {
        i = i + 1;
    }
    if i == v.len() {
        None
    } else {
        assert(v@.subrange(0, i as int) =~= s@.take(i as int));
        assert(v@.subrange(i + 1, v@.len() as int) =~= s@.skip(i + 1));
        Some((slice_of(&v, 0, i), slice_of(&v, i + 1, v.len())))
    }
}

// ---------------------------------------------------------------------
// Decimal numbers
// ---------------------------------------------------------------------

/// Whether the character is one of `0` to `9`.
pub open spec fn is_digit(c: char) -> bool {
    '0' <= c <= '9'
}

/// The number that a run of decimal digits writes.
pub open spec fn digits_value(s: Seq<char>) -> nat
    decreases s.len(),
{
    if s.len() == 0 {
        0
    } else {
        digits_value(s.drop_last()) * 10 + ((s.last() as int - '0' as int) as nat)
    }
}

/// Whether `s` is a nonempty run of decimal digits.
pub open spec fn all_digits(s: Seq<char>) -> bool {
    s.len() > 0 && forall|i: int| 0 <= i < s.len() ==> is_digit(#[trigger] s[i])
}

/// The digits of `s` behind an optional leading `+`.
pub open spec fn unsigned_part(s: Seq<char>) -> Seq<char> {
    if s.len() > 1 && s[0] == '+' {
        s.skip(1)
    } else {
        s
    }
}

/// The number that `s` writes, where it is at most `max`: decimal digits with
/// an optional leading `+`.
pub open spec fn parsed_nat(s: Seq<char>, max: nat) -> Option<nat> {
    let d = unsigned_part(s);
    if all_digits(d) && digits_value(d) <= max {
        Some(digits_value(d))
    } else {
        None
    }
}

proof fn lemma_digits_value_grows(s: Seq<char>, n: int)
    requires
        0 <= n <= s.len(),
        forall|i: int| 0 <= i < s.len() ==> is_digit(#[trigger] s[i]),
    ensures
        digits_value(s.take(n)) <= digits_value(s),
    decreases s.len(),
{
    if n == s.len() {
        assert(s.take(n) =~= s);
    } else {
        let t = s.drop_last();
        assert forall|i: int| 0 <= i < t.len() implies is_digit(#[trigger] t[i]) by {
            assert(t[i] == s[i]);
        }
        lemma_digits_value_grows(t, n);
        assert(t.take(n) =~= s.take(n));
    }
}

/// Reads the digits of `v` from `from` on.
fn digits_u64(v: &Vec<char>, from: usize) -> (r: Option<u64>)
    requires
        from <= v.len(),
    ensures
        match r {
            Some(n) => all_digits(v@.skip(from as int)) && n == digits_value(v@.skip(from as int)),
            None => !all_digits(v@.skip(from as int)) || digits_value(v@.skip(from as int)) > u64::MAX,
        },
{
    let ghost d = v@.skip(from as int);
    if from == v.len() {
        return None;
    }
    let mut i: usize = from;
    while i < v.len()
        invariant
            from <= i <= v.len(),
            d == v@.skip(from as int),
            forall|j: int| 0 <= j < i - from ==> is_digit(#[trigger] d[j]),
        decreases v.len() - i,
    {
        let c: char = v[i];
        if !('0' <= c && c <= '9') {
            assert(!is_digit(d[i - from]));
            return None;
        }
        i = i + 1;
    }
    let mut value: u64 = 0;
    i = from;
    assert(d.take(0) =~= Seq::<char>::empty());
    while i < v.len()
        invariant
            from <= i <= v.len(),
            d == v@.skip(from as int),
            forall|j: int| 0 <= j < d.len() ==> is_digit(#[trigger] d[j]),
            value == digits_value(d.take(i - from)),
        decreases v.len() - i,
    {
        let c: char = v[i];
        assert(c == d[i - from]);
        assert(is_digit(c));
        let x: u64 = (c as u32 - '0' as u32) as u64;
        proof {
            let next = d.take(i - from + 1);
            assert(next.drop_last() =~= d.take(i - from));
            assert(next.last() == c);
            assert(digits_value(next) == value * 10 + x);
            lemma_digits_value_grows(d, i - from + 1);
        }
        if value > (u64::MAX - x) / 10 {
            assert(value * 10 + x > u64::MAX);
            return None;
        }
        value = value * 10 + x;
        i = i + 1;
    }
    assert(d.take(d.len() as int) =~= d);
    Some(value)
}

/// The number that the characters write where all of them are decimal digits
/// and it is at most `max`. No character at all writes zero.
pub open spec fn bounded_digits(s: Seq<char>, max: nat) -> Option<nat> {
    if (forall|i: int| 0 <= i < s.len() ==> is_digit(#[trigger] s[i])) && digits_value(s) <= max {
        Some(digits_value(s))
    } else {
        None
    }
}

/// How many digits the characters begin with.
pub open spec fn leading_digits(s: Seq<char>) -> nat
    decreases s.len(),
{
    if s.len() > 0 && is_digit(s[0]) {
        1 + leading_digits(s.skip(1))
    } else {
        0
    }
}

/// There are no more leading digits than characters.
pub proof fn lemma_leading_digits_bound(s: Seq<char>)
    ensures
        leading_digits(s) <= s.len(),
    decreases s.len(),
{
    if s.len() > 0 {
        lemma_leading_digits_bound(s.skip(1));
    }
}

/// The leading digits are digits.
pub proof fn lemma_leading_digits_are_digits(s: Seq<char>)
    ensures
        leading_digits(s) <= s.len(),
        forall|k: int| 0 <= k < leading_digits(s) ==> is_digit(#[trigger] s[k]),
    decreases s.len(),
{
    if s.len() > 0 && is_digit(s[0]) {
        lemma_leading_digits_are_digits(s.skip(1));
        assert forall|k: int| 0 <= k < leading_digits(s) implies is_digit(#[trigger] s[k]) by {
            if k > 0 {
                assert(s.skip(1)[k - 1] == s[k]);
            }
        }
    }
}

proof fn lemma_leading_digits(s: Seq<char>, n: int)
    requires
        0 <= n <= s.len(),
        forall|k: int| 0 <= k < n ==> is_digit(#[trigger] s[k]),
        n == s.len() || !is_digit(s[n]),
    ensures
        leading_digits(s) == n,
    decreases s.len(),
{
    if n > 0 {
        assert forall|k: int| 0 <= k < n - 1 implies is_digit(#[trigger] s.skip(1)[k]) by {
            assert(s.skip(1)[k] == s[k + 1]);
        }
        lemma_leading_digits(s.skip(1), n - 1);
    }
}

/// Where the digits from `from` on end.
pub fn digits_end(v: &Vec<char>, from: usize) -> (r: usize)
    requires
        from <= v@.len(),
    ensures
        r == from + leading_digits(v@.skip(from as int)),
        from <= r <= v@.len(),
{
    let ghost rest = v@.skip(from as int);
    let mut end: usize = from;
    while end < v.len() && v[end] >= '0' && v[end] <= '9'
        invariant
            from <= end <= v@.len(),
            rest == v@.skip(from as int),
            forall|k: int| 0 <= k < end - from ==> is_digit(#[trigger] rest[k]),
        decreases v@.len() - end,
    {
        assert(rest[end - from] == v@[end as int]);
        end = end + 1;
    }
    proof {
        if end < v@.len() {
            assert(rest[end - from] == v@[end as int]);
        }
        lemma_leading_digits(rest, end - from);
    }
    end
}

/// Reads the digits of `v` from `from` up to but not including `to`.
pub fn digits_between(v: &Vec<char>, from: usize, to: usize, max: u64) -> (r: Option<u64>)
    requires
        from <= to <= v.len(),
    ensures
        match r {
            Some(n) => bounded_digits(v@.subrange(from as int, to as int), max as nat) == Some(n as nat),
            None => bounded_digits(v@.subrange(from as int, to as int), max as nat) is None,
        },
{
    let ghost d = v@.subrange(from as int, to as int);
    let mut i: usize = from;
    let mut value: u64 = 0;
    let mut over: bool = false;
    assert(d.take(0) =~= Seq::<char>::empty());
    while i < to
        invariant
            from <= i <= to <= v.len(),
            d == v@.subrange(from as int, to as int),
            forall|j: int| 0 <= j < i - from ==> is_digit(#[trigger] d[j]),
            !over ==> value == digits_value(d.take(i - from)) && value <= max,
            over ==> digits_value(d.take(i - from)) > max,
        decreases to - i,
    {
        let c: char = v[i];
        assert(c == d[i - from]);
        if !('0' <= c && c <= '9') {
            assert(!is_digit(d[i - from]));
            return None;
        }
        let x: u64 = (c as u32 - '0' as u32) as u64;
        proof {
            let next = d.take(i - from + 1);
            assert(next.drop_last() =~= d.take(i - from));
            assert(next.last() == c);
        }
        if !over {
            if x > max || value > (max - x) / 10 {
                over = true;
            } else {
                value = value * 10 + x;
            }
        }
        i = i + 1;
    }
    assert(d.take(d.len() as int) =~= d);
    if over {
        None
    } else {
        Some(value)
    }
}

/// Reads an unsigned decimal number, as `str::parse` does for `u64`.
pub fn parse_u64(s: &str) -> (r: Option<u64>)
    ensures
        match r {
            Some(n) => parsed_nat(s@, u64::MAX as nat) == Some(n as nat),
            None => parsed_nat(s@, u64::MAX as nat) is None,
        },
{
    let v = char_vec(s);
    assert(v@.skip(0) =~= v@);
    if v.len() > 1 && v[0] == '+' {
        digits_u64(&v, 1)
    } else {
        digits_u64(&v, 0)
    }
}

/// Reads an unsigned decimal number, as `str::parse` does for `u32`.
pub fn parse_u32(s: &str) -> (r: Option<u32>)
    ensures
        match r {
            Some(n) => parsed_nat(s@, u32::MAX as nat) == Some(n as nat),
            None => parsed_nat(s@, u32::MAX as nat) is None,
        },
{
    match parse_u64(s) {
        Some(n) => if n <= u32::MAX as u64 {
            Some(n as u32)
        } else {
            None
        },
        None => None,
    }
}

/// The decimal digit for a number below ten.
pub open spec fn digit_char(d: nat) -> char {
    ('0' as int + d) as char
}

/// The decimal writing of `n`, without leading zeros.
pub open spec fn decimal(n: nat) -> Seq<char>
    decreases n,
{
    if n < 10 {
        seq![digit_char(n)]
    } else {
        decimal(n / 10).push(digit_char(n % 10))
    }
}

/// What a number is written as is read back as that number.
pub proof fn law_decimal_is_read_back(n: nat, max: nat)
    ensures
        all_digits(decimal(n)),
        digits_value(decimal(n)) == n,
        n <= max ==> parsed_nat(decimal(n), max) == Some(n),
        n > max ==> parsed_nat(decimal(n), max) is None,
    decreases n,
{
    let d = decimal(n);
    if n < 10 {
        assert(d.drop_last() =~= Seq::empty());
        assert(digits_value(d.drop_last()) == 0);
    } else {
        law_decimal_is_read_back(n / 10, max);
        assert(d.drop_last() =~= decimal(n / 10));
        assert forall|i: int| 0 <= i < d.len() implies is_digit(#[trigger] d[i]) by {
            if i < d.len() - 1 {
                assert(d[i] == decimal(n / 10)[i]);
            }
        }
    }
    assert(is_digit(d[0]));
}

/// A number may be written with zeros or one `+` in front; anything else that is
/// no digit makes the text no number.
pub proof fn law_number_is_its_digits(s: Seq<char>, max: nat)
    ensures
        parsed_nat(s, max) is Some ==> s.len() > 0 && forall|i: int|
            0 <= i < s.len() ==> ('0' <= #[trigger] s[i] <= '9' || (i == 0 && s[i] == '+' && s.len() > 1)),
        parsed_nat(s, max) matches Some(n) ==> n <= max,
        all_digits(s) ==> parsed_nat(seq!['0'] + s, max) == parsed_nat(s, max),
        all_digits(s) ==> parsed_nat(seq!['+'] + s, max) == parsed_nat(s, max),
{
    let d = unsigned_part(s);
    if parsed_nat(s, max) is Some {
        assert forall|i: int| 0 <= i < s.len() implies ('0' <= #[trigger] s[i] <= '9' || (i == 0 && s[i] == '+'
            && s.len() > 1)) by {
            if s.len() > 1 && s[0] == '+' {
                if i > 0 {
                    assert(is_digit(d[i - 1]));
                    assert(d[i - 1] == s[i]);
                }
            } else {
                assert(is_digit(d[i]));
            }
        }
    }
    if all_digits(s) {
        assert(is_digit(s[0]));
        let zero = seq!['0'] + s;
        lemma_leading_zero(s);
        assert forall|i: int| 0 <= i < zero.len() implies is_digit(#[trigger] zero[i]) by {
            if i > 0 {
                assert(zero[i] == s[i - 1]);
            }
        }
        let plus = seq!['+'] + s;
        assert(plus.skip(1) =~= s);
    }
}

proof fn lemma_leading_zero(s: Seq<char>)
    ensures
        digits_value(seq!['0'] + s) == digits_value(s),
    decreases s.len(),
{
    let zero = seq!['0'] + s;
    if s.len() == 0 {
        assert(zero.drop_last() =~= Seq::empty());
        assert(digits_value(zero.drop_last()) == 0);
    } else {
        lemma_leading_zero(s.drop_last());
        assert(zero.drop_last() =~= seq!['0'] + s.drop_last());
    }
}

/// Appends the decimal writing of `n`.
pub fn push_decimal(out: &mut String, n: u64)
    ensures
        final(out)@ == old(out)@ + decimal(n as nat),
    decreases n,
{
    let d: u8 = (n % 10) as u8;
    if n >= 10 {
        push_decimal(out, n / 10);
    }
    let ghost mid = out@;
    out.push((48u8 + d) as char);
    proof {
        if n >= 10 {
            assert(mid.push(digit_char((n % 10) as nat)) =~= old(out)@ + decimal(n as nat));
        } else {
            assert(mid.push(digit_char(n as nat)) =~= old(out)@ + decimal(n as nat));
        }
    }
}

/// The decimal writing of `n` with zeros in front up to `width` characters.
pub open spec fn padded(n: nat, width: nat) -> Seq<char> {
    let d = decimal(n);
    if d.len() < width {
        Seq::new((width - d.len()) as nat, |i: int| '0') + d
    } else {
        d
    }
}

/// Appends the decimal writing of `n` with zeros in front up to `width`
/// characters.
pub fn push_padded(out: &mut String, n: u64, width: usize)
    ensures
        final(out)@ == old(out)@ + padded(n as nat, width as nat),
{
    let mut digits: String = String::new();
    push_decimal(&mut digits, n);
    assert(digits@ =~= decimal(n as nat));
    let have: usize = char_vec(digits.as_str()).len();
    let mut i: usize = have;
    assert(old(out)@ + Seq::new(0, |i: int| '0') =~= old(out)@);
    while i < width
        invariant
            have <= i,
            i <= width || i == have,
            out@ == old(out)@ + Seq::new((i - have) as nat, |i: int| '0'),
        decreases width - i,
    {
        out.push('0');
        assert(out@ =~= old(out)@ + Seq::new((i + 1 - have) as nat, |i: int| '0'));
        i = i + 1;
    }
    out.push_str(digits.as_str());
    assert(out@ =~= old(out)@ + padded(n as nat, width as nat));
}

/// Two decimal digits.
pub proof fn lemma_padded_two(n: nat)
    requires
        n < 100,
    ensures
        padded(n, 2).len() == 2,
        all_digits(padded(n, 2)),
        digits_value(padded(n, 2)) == n,
{
    reveal_with_fuel(decimal, 2);
    reveal_with_fuel(digits_value, 3);
    let p = padded(n, 2);
    assert(p =~= seq![digit_char(n / 10), digit_char(n % 10)]);
    assert(p.drop_last() =~= seq![digit_char(n / 10)]);
    assert(p.drop_last().drop_last() =~= Seq::<char>::empty());
}

/// Four decimal digits.
pub proof fn lemma_padded_four(n: nat)
    requires
        n < 10000,
    ensures
        padded(n, 4).len() == 4,
        all_digits(padded(n, 4)),
        digits_value(padded(n, 4)) == n,
{
    reveal_with_fuel(decimal, 4);
    reveal_with_fuel(digits_value, 5);
    let p = padded(n, 4);
    assert(p =~= seq![
        digit_char(n / 1000),
        digit_char(n / 100 % 10),
        digit_char(n / 10 % 10),
        digit_char(n % 10),
    ]);
    assert(p.drop_last() =~= seq![
        digit_char(n / 1000),
        digit_char(n / 100 % 10),
        digit_char(n / 10 % 10),
    ]);
    assert(p.drop_last().drop_last() =~= seq![digit_char(n / 1000), digit_char(n / 100 % 10)]);
    assert(p.drop_last().drop_last().drop_last() =~= seq![digit_char(n / 1000)]);
    assert(p.drop_last().drop_last().drop_last().drop_last() =~= Seq::<char>::empty());
}

/// The decimal writing of a whole number, with a leading `-` below zero.
pub open spec fn signed_decimal(n: int) -> Seq<char> {
    if n < 0 {
        seq!['-'] + decimal((-n) as nat)
    } else {
        decimal(n as nat)
    }
}

/// Appends the decimal writing of `n`.
pub fn push_signed_decimal(out: &mut String, n: i64)
    ensures
        final(out)@ == old(out)@ + signed_decimal(n as int),
{
    if n < 0 {
        out.push('-');
        let m: u64 = if n == i64::MIN {
            9223372036854775808u64
        } else {
            (-n) as u64
        };
        push_decimal(out, m);
        assert(old(out)@.push('-') + decimal((-n) as nat) =~= old(out)@ + signed_decimal(n as int));
    } else {
        push_decimal(out, n as u64);
    }
}

// ---------------------------------------------------------------------
// ASCII case
// ---------------------------------------------------------------------

/// The character with an ASCII capital letter made small.
pub open spec fn ascii_lower_char(c: char) -> char {
    if 'A' <= c <= 'Z' {
        (c as int + 32) as char
    } else {
        c
    }
}

/// `s` with every ASCII capital letter made small.
pub open spec fn ascii_lower(s: Seq<char>) -> Seq<char> {
    s.map_values(|c: char| ascii_lower_char(c))
}

/// The character with an ASCII small letter made capital.
pub open spec fn ascii_upper_char(c: char) -> char {
    if 'a' <= c <= 'z' {
        (c as int - 32) as char
    } else {
        c
    }
}

/// `s` with every ASCII small letter made capital.
pub open spec fn ascii_upper(s: Seq<char>) -> Seq<char> {
    s.map_values(|c: char| ascii_upper_char(c))
}

/// The character with an ASCII capital letter made small.
pub fn to_lower_char(c: char) -> (r: char)
    ensures
        r == ascii_lower_char(c),
{
    if 'A' <= c && c <= 'Z' {
        (c as u8 + 32u8) as char
    } else {
        c
    }
}

/// The character with an ASCII small letter made capital.
pub fn to_upper_char(c: char) -> (r: char)
    ensures
        r == ascii_upper_char(c),
{
    if 'a' <= c && c <= 'z' {
        (c as u8 - 32u8) as char
    } else {
        c
    }
}

/// Makes ASCII capital letters small.
pub fn to_ascii_lower(s: &str) -> (r: String)
    ensures
        r@ == ascii_lower(s@),
{
    let v = char_vec(s);
    let mut out: String = String::new();
    let mut i: usize = 0;
    while i < v.len()
        invariant
            i <= v.len(),
            v@ == s@,
            out@ == ascii_lower(s@).take(i as int),
        decreases v.len() - i,
    {
        out.push(to_lower_char(v[i]));
        assert(ascii_lower(s@).take(i + 1) =~= ascii_lower(s@).take(i as int).push(ascii_lower_char(s@[i as int])));
        i = i + 1;
    }
    assert(ascii_lower(s@).take(s@.len() as int) =~= ascii_lower(s@));
    out
}

/// Makes ASCII small letters capital.
pub fn to_ascii_upper(s: &str) -> (r: String)
    ensures
        r@ == ascii_upper(s@),
{
    let v = char_vec(s);
    let mut out: String = String::new();
    let mut i: usize = 0;
    while i < v.len()
        invariant
            i <= v.len(),
            v@ == s@,
            out@ == ascii_upper(s@).take(i as int),
        decreases v.len() - i,
    {
        out.push(to_upper_char(v[i]));
        assert(ascii_upper(s@).take(i + 1) =~= ascii_upper(s@).take(i as int).push(ascii_upper_char(s@[i as int])));
        i = i + 1;
    }
    assert(ascii_upper(s@).take(s@.len() as int) =~= ascii_upper(s@));
    out
}

/// Changing the ASCII case keeps every character that is no ASCII letter, and
/// letters stay the same letters.
pub proof fn law_case_keeps_the_letters(s: Seq<char>)
    ensures
        ascii_upper(s).len() == s.len(),
        ascii_lower(s).len() == s.len(),
        ascii_upper(ascii_lower(s)) == ascii_upper(s),
        ascii_lower(ascii_upper(s)) == ascii_lower(s),
        forall|i: int|
            0 <= i < s.len() && !('a' <= #[trigger] s[i] <= 'z') && !('A' <= s[i] <= 'Z') ==> ascii_upper(s)[i] == s[i]
                && ascii_lower(s)[i] == s[i],
        forall|i: int|
            0 <= i < s.len() && 'a' <= #[trigger] s[i] <= 'z' ==> ascii_lower(s)[i] == s[i] && ascii_upper(s)[i] as int
                - 'A' as int == s[i] as int - 'a' as int,
        forall|i: int|
            0 <= i < s.len() && 'A' <= #[trigger] s[i] <= 'Z' ==> ascii_upper(s)[i] == s[i] && ascii_lower(s)[i] as int
                - 'a' as int == s[i] as int - 'A' as int,
{
    assert(ascii_upper(ascii_lower(s)) =~= ascii_upper(s));
    assert(ascii_lower(ascii_upper(s)) =~= ascii_lower(s));
}

/// Whether the two strings are the same but for ASCII case.
pub fn eq_ignore_ascii_case(a: &str, b: &str) -> (r: bool)
    ensures
        r == (ascii_lower(a@) == ascii_lower(b@)),
{
    let x = to_ascii_lower(a);
    let y = to_ascii_lower(b);
    str_eq(x.as_str(), y.as_str())
}

// ---------------------------------------------------------------------
// Lines and words
// ---------------------------------------------------------------------

/// A line without the carriage return that stands before its line feed.
pub open spec fn without_cr(s: Seq<char>) -> Seq<char> {
    if s.len() > 0 && s.last() == '\r' {
        s.drop_last()
    } else {
        s
    }
}

/// The lines of a text. The last one need not end in a line feed, and one that
/// does not keeps its carriage return.
pub open spec fn lines_of(s: Seq<char>) -> Seq<Seq<char>> {
    let p = split_on(s, '\n');
    let ended = p.drop_last().map_values(|l: Seq<char>| without_cr(l));
    if p.last().len() == 0 {
        ended
    } else {
        ended.push(p.last())
    }
}

/// The lines of a text.
pub fn lines(s: &str) -> (r: Vec<String>)
    ensures
        views(r@) == lines_of(s@),
{
    let pieces = split(s, '\n');
    let ghost p = split_on(s@, '\n');
    let mut out: Vec<String> = Vec::new();
    let n: usize = pieces.len();
    let mut i: usize = 0;
    let ghost ended = p.drop_last().map_values(|l: Seq<char>| without_cr(l));
    assert(views(out@) =~= ended.take(0));
    while i < n - 1
        invariant
            n == pieces.len(),
            n >= 1,
            i <= n - 1,
            p == views(pieces@),
            ended == p.drop_last().map_values(|l: Seq<char>| without_cr(l)),
            views(out@) == ended.take(i as int),
        decreases n - i,
    {
        let v = char_vec(pieces[i].as_str());
        let m: usize = v.len();
        let ghost before = out@;
        let line = if m > 0 && v[m - 1] == '\r' {
            slice_of(&v, 0, m - 1)
        } else {
            pieces[i].clone()
        };
        proof {
            assert(p[i as int] == pieces@[i as int]@);
            assert(line@ =~= without_cr(p[i as int]));
            assert(ended[i as int] == without_cr(p.drop_last()[i as int]));
            assert(views(before.push(line)) =~= views(before).push(line@));
            assert(ended.take(i + 1) =~= ended.take(i as int).push(ended[i as int]));
        }
        out.push(line);
        i = i + 1;
    }
    assert(ended.take(n - 1) =~= ended);
    if !pieces[n - 1].as_str().is_empty() {
        let ghost before = out@;
        out.push(pieces[n - 1].clone());
        assert(views(out@) =~= ended.push(p.last()));
    }
    out
}

/// The number of leading characters that are no white space.
pub open spec fn word_len(s: Seq<char>) -> nat
    decreases s.len(),
{
    if s.len() > 0 && !is_space(s[0]) {
        1 + word_len(s.skip(1))
    } else {
        0
    }
}

/// The first run of characters that are no white space.
pub open spec fn first_word_of(s: Seq<char>) -> Option<Seq<char>> {
    let t = trimmed_start(s);
    if t.len() == 0 {
        None
    } else {
        Some(t.take(word_len(t) as int))
    }
}

/// The first run of characters that are no white space.
pub fn first_word(s: &str) -> (r: Option<String>)
    ensures
        opt_view(r) == first_word_of(s@),
{
    let t = trim_start(s);
    let v = char_vec(t.as_str());
    if v.len() == 0 {
        return None;
    }
    let mut i: usize = 0;
    assert(t@.skip(0) =~= t@);
    while i < v.len() && !char_is_space(v[i])
        invariant
            i <= v.len(),
            v@ == t@,
            word_len(t@) == i + word_len(t@.skip(i as int)),
        decreases v.len() - i,
    {
        assert(t@.skip(i as int).skip(1) =~= t@.skip(i + 1));
        i = i + 1;
    }
    assert(v@.subrange(0, i as int) =~= t@.take(i as int));
    Some(slice_of(&v, 0, i))
}

// ---------------------------------------------------------------------
// Order
// ---------------------------------------------------------------------

/// Whether `a` comes before `b`: at the first difference it has the smaller
/// character, or it ends there.
pub open spec fn before(a: Seq<char>, b: Seq<char>) -> bool
    decreases a.len(),
{
    if b.len() == 0 {
        false
    } else if a.len() == 0 {
        true
    } else {
        a[0] < b[0] || (a[0] == b[0] && before(a.skip(1), b.skip(1)))
    }
}

/// Of two different texts exactly one comes before the other.
pub proof fn lemma_before_total(a: Seq<char>, b: Seq<char>)
    ensures
        a != b ==> (before(a, b) <==> !before(b, a)),
        a == b ==> !before(a, b) && !before(b, a),
    decreases a.len(),
{
    if a.len() > 0 && b.len() > 0 {
        lemma_before_total(a.skip(1), b.skip(1));
        if a[0] == b[0] && a.skip(1) == b.skip(1) {
            assert(a =~= seq![a[0]] + a.skip(1));
            assert(b =~= seq![b[0]] + b.skip(1));
        }
    } else if a.len() == 0 && b.len() == 0 {
        assert(a =~= b);
    }
}

/// The order is transitive.
pub proof fn lemma_before_transitive(a: Seq<char>, b: Seq<char>, c: Seq<char>)
    requires
        before(a, b),
        before(b, c),
    ensures
        before(a, c),
    decreases a.len(),
{
    if a.len() > 0 && a[0] == b[0] && b[0] == c[0] {
        lemma_before_transitive(a.skip(1), b.skip(1), c.skip(1));
    }
}

/// Whether `a` comes before `b`.
pub fn str_before(a: &str, b: &str) -> (r: bool)
    ensures
        r == before(a@, b@),
{
    let x = char_vec(a);
    let y = char_vec(b);
    let mut i: usize = 0;
    assert(a@.skip(0) =~= a@);
    assert(b@.skip(0) =~= b@);
    while i < x.len() && i < y.len()
        invariant
            i <= x.len(),
            i <= y.len(),
            x@ == a@,
            y@ == b@,
            before(a@, b@) == before(a@.skip(i as int), b@.skip(i as int)),
        decreases x.len() - i,
    {
        assert(a@.skip(i as int).skip(1) =~= a@.skip(i + 1));
        assert(b@.skip(i as int).skip(1) =~= b@.skip(i + 1));
        if x[i] != y[i] {
            return x[i] < y[i];
        }
        i = i + 1;
    }
    i < y.len()
}

// ---------------------------------------------------------------------
// UTF-8
// ---------------------------------------------------------------------

/// What the bytes say, with a replacement character for each part that is no
/// UTF-8.
pub uninterp spec fn lossy_text(b: Seq<u8>) -> Seq<char>;

/// `String::from_utf8_lossy`: the text is a function of the bytes, named
/// `lossy_text`; of bytes that are UTF-8 it is what they encode.
#[verifier::external_body]
pub(crate) fn from_utf8_lossy(b: &[u8]) -> (r: String)
    ensures
        r@ == lossy_text(b@),
        valid_utf8(b@) ==> r@ == decode_utf8(b@),
{
    String::from_utf8_lossy(b).into_owned()
}

/// The message of the error for bytes that are not UTF-8.
pub uninterp spec fn utf8_fault(b: Seq<u8>) -> Seq<char>;

/// `String::from_utf8`: gives the text that the bytes encode where they are
/// UTF-8, and otherwise an error, whose message is a function of the bytes,
/// named `utf8_fault`.
#[verifier::external_body]
pub(crate) fn from_utf8(b: Vec<u8>) -> (r: Result<String, String>)
    ensures
        match r {
            Ok(s) => valid_utf8(b@) && s@ == decode_utf8(b@),
            Err(e) => !valid_utf8(b@) && e@ == utf8_fault(b@),
        },
{
    String::from_utf8(b).map_err(|err| err.to_string())
}

/// Of two texts that begin alike, the one that ends there comes first, and else
/// the one with the smaller character behind what they share.
pub proof fn law_texts_are_ordered_as_in_a_dictionary(shared: Seq<char>, a: Seq<char>, b: Seq<char>)
    requires
        a.len() > 0 && b.len() > 0 ==> a[0] != b[0],
    ensures
        before(shared + a, shared + b) <==> b.len() > 0 && (a.len() == 0 || a[0] < b[0]),
    decreases shared.len(),
{
    if shared.len() == 0 {
        assert(shared + a =~= a);
        assert(shared + b =~= b);
    } else {
        law_texts_are_ordered_as_in_a_dictionary(shared.skip(1), a, b);
        assert((shared + a).skip(1) =~= shared.skip(1) + a);
        assert((shared + b).skip(1) =~= shared.skip(1) + b);
    }
}

/// A text is found where it first stands in another, and is not found exactly
/// where it does not stand in it.
pub proof fn law_text_is_found_where_it_first_stands(h: Seq<char>, n: Seq<char>)
    ensures
        match sub_index(h, n) {
            Some(i) => 0 <= i <= h.len() - n.len() && h.subrange(i, i + n.len()) == n && forall|j: int|
                0 <= j < i ==> #[trigger] h.subrange(j, j + n.len()) != n,
            None => forall|j: int| 0 <= j <= h.len() - n.len() ==> #[trigger] h.subrange(j, j + n.len()) != n,
        },
        sub_index(h, n) is Some <==> has_sub(h, n),
    decreases h.len(),
{
    if has_prefix(h, n) {
        assert(h.subrange(0int, 0int + n.len()) =~= h.take(n.len() as int));
    } else if h.len() > 0 {
        let rest = h.skip(1);
        law_text_is_found_where_it_first_stands(rest, n);
        assert forall|j: int| 1 <= j <= h.len() - n.len() implies #[trigger] h.subrange(j, j + n.len())
            == rest.subrange(j - 1, j - 1 + n.len()) by {
            assert(h.subrange(j, j + n.len()) =~= rest.subrange(j - 1, j - 1 + n.len()));
        }
        if h.len() >= n.len() {
            assert(h.subrange(0int, 0int + n.len()) =~= h.take(n.len() as int));
        }
        match sub_index(rest, n) {
            Some(i) => {
                assert(h.subrange(i + 1, i + 1 + n.len()) == n);
                assert forall|j: int| 0 <= j < i + 1 implies #[trigger] h.subrange(j, j + n.len()) != n by {
                    if j > 0 {
                        assert(rest.subrange(j - 1, j - 1 + n.len()) != n);
                    }
                }
            },
            None => {
                assert forall|j: int| 0 <= j <= h.len() - n.len() implies #[trigger] h.subrange(j, j + n.len()) != n by {
                    if j > 0 {
                        assert(rest.subrange(j - 1, j - 1 + n.len()) != n);
                    }
                }
            },
        }
    } else {
        assert forall|j: int| 0 <= j <= h.len() - n.len() implies #[trigger] h.subrange(j, j + n.len()) != n by {
            assert(h.take(n.len() as int) =~= h.subrange(j, j + n.len()));
        }
    }
}

/// The leading digits of a text are all of the digits in front of its first
/// character that is none.
pub proof fn law_leading_digits_end_at_another_character(digits: Seq<char>, rest: Seq<char>)
    requires
        forall|i: int| 0 <= i < digits.len() ==> '0' <= #[trigger] digits[i] <= '9',
        rest.len() > 0 ==> !('0' <= rest[0] <= '9'),
    ensures
        leading_digits(digits + rest) == digits.len(),
{
    let s = digits + rest;
    assert forall|k: int| 0 <= k < digits.len() implies is_digit(#[trigger] s[k]) by {
        assert(s[k] == digits[k]);
    }
    lemma_leading_digits(s, digits.len() as int);
}

/// What is taken off a text is the beginning or the end that is asked for, and
/// only where it is there.
pub proof fn law_ends_are_taken_off(s: Seq<char>, p: Seq<char>)
    ensures
        after_prefix(p + s, p) == Some(s),
        before_suffix(s + p, p) == Some(s),
        after_prefix(s, p) matches Some(rest) ==> p + rest == s,
        before_suffix(s, p) matches Some(rest) ==> rest + p == s,
        after_prefix(s, p) is Some <==> has_prefix(s, p),
        before_suffix(s, p) is Some <==> has_suffix(s, p),
{
    assert((p + s).take(p.len() as int) =~= p);
    assert((p + s).skip(p.len() as int) =~= s);
    assert((s + p).skip((s + p).len() - p.len()) =~= p);
    assert((s + p).take((s + p).len() - p.len()) =~= s);
    if has_prefix(s, p) {
        assert(s =~= s.take(p.len() as int) + s.skip(p.len() as int));
    }
    if has_suffix(s, p) {
        assert(s =~= s.take(s.len() - p.len()) + s.skip(s.len() - p.len()));
    }
}

/// A text is cut in two at the first of the characters that are asked for, and is
/// not where it holds none.
pub proof fn law_text_is_cut_at_the_first(a: Seq<char>, sep: char, b: Seq<char>)
    requires
        !a.contains(sep),
    ensures
        split_first(a + seq![sep] + b, sep) == Some((a, b)),
        split_first(a, sep) is None,
{
    let s = a + seq![sep] + b;
    lemma_first_index(s, sep);
    lemma_first_index(a, sep);
    let i = first_index(s, sep);
    if i < a.len() {
        assert(s[i] == a[i]);
        assert(a.contains(sep));
    }
    if i > a.len() {
        assert(s[a.len() as int] == sep);
    }
    assert(s.take(a.len() as int) =~= a);
    assert(s.skip(a.len() as int + 1) =~= b);
    if first_index(a, sep) < a.len() {
        assert(a.contains(sep));
    }
}

/// The lines of a text end at its line feeds, each without the carriage return
/// before it; what stands behind the last line feed is a line where it is not
/// empty.
pub proof fn law_lines_end_at_line_feeds(line: Seq<char>, rest: Seq<char>)
    requires
        !line.contains('\n'),
    ensures
        lines_of(line.push('\n') + rest) == seq![
            if line.len() > 0 && line.last() == '\r' {
                line.drop_last()
            } else {
                line
            },
        ] + lines_of(rest),
        line.len() > 0 ==> lines_of(line) == seq![line],
        lines_of(Seq::empty()) == Seq::<Seq<char>>::empty(),
{
    let whole = line.push('\n') + rest;
    lemma_split_concat(line, rest, '\n');
    lemma_split_plain(line, '\n');
    lemma_split_plain(Seq::empty(), '\n');
    lemma_split_nonempty(rest, '\n');
    let p = split_on(rest, '\n');
    let q = split_on(whole, '\n');
    assert(q =~= seq![line] + p);
    assert(q.drop_last() =~= seq![line] + p.drop_last());
    assert(q.last() == p.last());
    assert(lines_of(whole) =~= seq![without_cr(line)] + lines_of(rest));
    assert(seq![line].drop_last() =~= Seq::<Seq<char>>::empty());
    assert(lines_of(Seq::empty()) =~= Seq::<Seq<char>>::empty()) by {
        assert(seq![Seq::<char>::empty()].drop_last() =~= Seq::<Seq<char>>::empty());
    }
    if line.len() > 0 {
        assert(lines_of(line) =~= seq![line]);
    }
}

/// The first word of a text is what stands between its leading white space and
/// the next.
pub proof fn law_first_word_stands_between_white_space(blank: Seq<char>, word: Seq<char>, rest: Seq<char>)
    requires
        forall|i: int| 0 <= i < blank.len() ==> is_space(#[trigger] blank[i]),
        forall|i: int| 0 <= i < word.len() ==> !is_space(#[trigger] word[i]),
        word.len() > 0,
        rest.len() > 0 ==> is_space(rest[0]),
    ensures
        first_word_of(blank + word + rest) == Some(word),
        first_word_of(blank) is None,
{
    lemma_leading_space(blank, word + rest);
    assert(blank + (word + rest) =~= blank + word + rest);
    lemma_leading_space(blank, Seq::empty());
    assert(blank + Seq::empty() =~= blank);
    lemma_word_len(word, rest);
    assert((word + rest).take(word.len() as int) =~= word);
}

proof fn lemma_leading_space(blank: Seq<char>, rest: Seq<char>)
    requires
        forall|i: int| 0 <= i < blank.len() ==> is_space(#[trigger] blank[i]),
        rest.len() > 0 ==> !is_space(rest[0]),
    ensures
        trimmed_start(blank + rest) == rest,
    decreases blank.len(),
{
    if blank.len() == 0 {
        assert(blank + rest =~= rest);
    } else {
        lemma_leading_space(blank.skip(1), rest);
        assert(is_space(blank[0]));
        assert((blank + rest).skip(1) =~= blank.skip(1) + rest);
    }
}

proof fn lemma_word_len(word: Seq<char>, rest: Seq<char>)
    requires
        forall|i: int| 0 <= i < word.len() ==> !is_space(#[trigger] word[i]),
        rest.len() > 0 ==> is_space(rest[0]),
    ensures
        word_len(word + rest) == word.len(),
    decreases word.len(),
{
    if word.len() == 0 {
        assert(word + rest =~= rest);
    } else {
        lemma_word_len(word.skip(1), rest);
        assert(!is_space(word[0]));
        assert((word + rest).skip(1) =~= word.skip(1) + rest);
    }
}

/// A number is padded with zeros in front, up to the width and no further.
pub proof fn law_padding_is_zeros_in_front(n: nat, width: nat, i: int)
    ensures
        padded(n, width).len() == (if decimal(n).len() < width {
            width
        } else {
            decimal(n).len()
        }),
        padded(n, width).skip(padded(n, width).len() - decimal(n).len()) == decimal(n),
        0 <= i < padded(n, width).len() - decimal(n).len() ==> padded(n, width)[i] == '0',
{
    assert(padded(n, width).skip(padded(n, width).len() - decimal(n).len()) =~= decimal(n));
}

/// What is cut off the ends of a text is the one character, however often it
/// stands there.
pub proof fn law_one_character_is_cut_off(s: Seq<char>, c: char)
    ensures
        without_end(s.push(c), c) == without_end(s, c),
        without_start(seq![c] + s, c) == without_start(s, c),
        s.len() > 0 && s.last() != c ==> without_end(s, c) == s,
        s.len() > 0 && s[0] != c ==> without_start(s, c) == s,
        without_end(Seq::empty(), c) == Seq::<char>::empty(),
        without_start(Seq::empty(), c) == Seq::<char>::empty(),
{
    assert(s.push(c).drop_last() =~= s);
    assert((seq![c] + s).skip(1) =~= s);
}

} // verus!

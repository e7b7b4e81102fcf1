//! The cookie by which requests to the plugin service are routed.

use vstd::prelude::*;

verus! {

/// Whether the byte is a space or a tab.
pub open spec fn is_blank(b: u8) -> bool {
    b == 32 || b == 9
}

/// The bytes without blanks at the beginning.
pub open spec fn front_trimmed(s: Seq<u8>) -> Seq<u8>
    decreases s.len(),
{
    if s.len() > 0 && is_blank(s[0]) {
        front_trimmed(s.skip(1))
    } else {
        s
    }
}

/// The bytes without blanks at the end.
pub open spec fn back_trimmed(s: Seq<u8>) -> Seq<u8>
    decreases s.len(),
{
    if s.len() > 0 && is_blank(s.last()) {
        back_trimmed(s.drop_last())
    } else {
        s
    }
}

/// The bytes without blanks around them.
pub open spec fn blank_trimmed(s: Seq<u8>) -> Seq<u8> {
    back_trimmed(front_trimmed(s))
}

/// The pieces of the bytes between semicolons.
pub open spec fn pieces(s: Seq<u8>) -> Seq<Seq<u8>>
    decreases s.len(),
{
    if s.len() == 0 {
        seq![Seq::empty()]
    } else {
        let before = pieces(s.drop_last());
        if s.last() == 59 {
            before.push(Seq::empty())
        } else {
            before.drop_last().push(before.last().push(s.last()))
        }
    }
}

/// Where the first equals sign stands, or the length.
pub open spec fn name_len(s: Seq<u8>) -> int
    decreases s.len(),
{
    if s.len() == 0 || s[0] == 61 {
        0
    } else {
        1 + name_len(s.skip(1))
    }
}

/// The name of a cookie.
pub open spec fn name_of(cookie: Seq<u8>) -> Seq<u8> {
    blank_trimmed(cookie.take(name_len(cookie)))
}

/// `oai-chat-plugin-service-preview`.
pub open spec fn preview_name() -> Seq<u8> {
    seq![
        111u8, 97, 105, 45, 99, 104, 97, 116, 45, 112, 108, 117, 103, 105, 110, 45, 115, 101, 114, 118, 105, 99, 101, 45,
        112, 114, 101, 118, 105, 101, 119,
    ]
}

/// `oai-chat-plugin-service-preview=true`.
pub open spec fn preview_cookie() -> Seq<u8> {
    preview_name() + seq![61u8, 116, 114, 117, 101]
}

/// The cookies among the pieces: those that are not blank, without blanks around
/// them.
pub open spec fn cookies_among(ps: Seq<Seq<u8>>) -> Seq<Seq<u8>>
    decreases ps.len(),
{
    if ps.len() == 0 {
        Seq::empty()
    } else {
        let before = cookies_among(ps.drop_last());
        let cookie = blank_trimmed(ps.last());
        if cookie.len() == 0 {
            before
        } else {
            before.push(cookie)
        }
    }
}

/// The cookies in the headers, in order.
pub open spec fn cookies_in(headers: Seq<Seq<u8>>) -> Seq<Seq<u8>>
    decreases headers.len(),
{
    if headers.len() == 0 {
        Seq::empty()
    } else {
        cookies_in(headers.drop_last()) + cookies_among(pieces(headers.last()))
    }
}

/// The cookies that have nothing to do with routing.
pub open spec fn unrelated(cookies: Seq<Seq<u8>>) -> Seq<Seq<u8>> {
    cookies.filter(|c: Seq<u8>| name_of(c) != preview_name())
}

/// The cookies of a routed request.
pub open spec fn routed(headers: Seq<Seq<u8>>, preview_enabled: bool) -> Seq<Seq<u8>> {
    if preview_enabled {
        unrelated(cookies_in(headers)).push(preview_cookie())
    } else {
        unrelated(cookies_in(headers))
    }
}

/// The cookies in one header.
pub open spec fn in_one_header(cookies: Seq<Seq<u8>>) -> Seq<u8>
    decreases cookies.len(),
{
    if cookies.len() == 0 {
        Seq::empty()
    } else if cookies.len() == 1 {
        cookies[0]
    } else {
        in_one_header(cookies.drop_last()) + seq![59u8, 32] + cookies.last()
    }
}

/// The contents of the headers.
pub open spec fn header_views(headers: Seq<&[u8]>) -> Seq<Seq<u8>> {
    headers.map_values(|h: &[u8]| h@)
}

/// The contents of the cookies.
pub open spec fn cookie_views(cookies: Seq<Vec<u8>>) -> Seq<Seq<u8>> {
    cookies.map_values(|c: Vec<u8>| c@)
}

// ---------------------------------------------------------------------
// Reading and writing
// ---------------------------------------------------------------------

fn copy_between(v: &[u8], from: usize, to: usize) -> (r: Vec<u8>)
    requires
        from <= to <= v@.len(),
    ensures
        r@ == v@.subrange(from as int, to as int),
{
    let mut out: Vec<u8> = Vec::new();
    let mut i: usize = from;
    while i < to
        invariant
            from <= i <= to <= v@.len(),
            out@ == v@.subrange(from as int, i as int),
        decreases to - i,
    {
        out.push(v[i]);
        assert(out@ =~= v@.subrange(from as int, i + 1));
        i = i + 1;
    }
    out
}

fn trim_cookie_whitespace(v: &[u8], from: usize, to: usize) -> (r: Vec<u8>)
    requires
        from <= to <= v@.len(),
    ensures
        r@ == blank_trimmed(v@.subrange(from as int, to as int)),
{
    let ghost whole = v@.subrange(from as int, to as int);
    let mut a: usize = from;
    while a < to && (v[a] == 32 || v[a] == 9)
        invariant
            from <= a <= to <= v@.len(),
            front_trimmed(whole) == front_trimmed(v@.subrange(a as int, to as int)),
        decreases to - a,
    {
        assert(v@.subrange(a as int, to as int).skip(1) =~= v@.subrange(a + 1, to as int));
        a = a + 1;
    }
    let ghost front = v@.subrange(a as int, to as int);
    let mut b: usize = to;
    while b > a && (v[b - 1] == 32 || v[b - 1] == 9)
        invariant
            a <= b <= to <= v@.len(),
            back_trimmed(front) == back_trimmed(v@.subrange(a as int, b as int)),
        decreases b,
    {
        assert(v@.subrange(a as int, b as int).drop_last() =~= v@.subrange(a as int, b - 1));
        b = b - 1;
    }
    copy_between(v, a, b)
}

fn find_equals(v: &Vec<u8>) -> (r: usize)
    ensures
        r == name_len(v@),
        r <= v@.len(),
{
    let mut i: usize = 0;
    assert(v@.skip(0) =~= v@);
    while i < v.len() && v[i] != 61
        invariant
            i <= v@.len(),
            name_len(v@) == i + name_len(v@.skip(i as int)),
        decreases v@.len() - i,
    {
        assert(v@.skip(i as int).skip(1) =~= v@.skip(i + 1));
        i = i + 1;
    }
    i
}

fn preview_name_bytes() -> (r: Vec<u8>)
    ensures
        r@ == preview_name(),
{
    let r: Vec<u8> = vec![
        111, 97, 105, 45, 99, 104, 97, 116, 45, 112, 108, 117, 103, 105, 110, 45, 115, 101, 114, 118, 105, 99, 101, 45,
        112, 114, 101, 118, 105, 101, 119,
    ];
    assert(r@ =~= preview_name());
    r
}

fn same_bytes(a: &Vec<u8>, b: &Vec<u8>) -> (r: bool)
    ensures
        r == (a@ == b@),
{
    if a.len() != b.len() {
        return false;
    }
    let mut i: usize = 0;
    while i < a.len()
        invariant
            i <= a@.len(),
            a@.len() == b@.len(),
            forall|k: int| 0 <= k < i ==> a@[k] == b@[k],
        decreases a@.len() - i,
    {
        if a[i] != b[i] {
            return false;
        }
        i = i + 1;
    }
    assert(a@ =~= b@);
    true
}

fn is_preview(cookie: &Vec<u8>) -> (r: bool)
    ensures
        r == (name_of(cookie@) == preview_name()),
{
    let end: usize = find_equals(cookie);
    assert(cookie@.subrange(0, end as int) =~= cookie@.take(end as int));
    let name = trim_cookie_whitespace(cookie.as_slice(), 0, end);
    same_bytes(&name, &preview_name_bytes())
}

proof fn lemma_pieces_nonempty(s: Seq<u8>)
    ensures
        pieces(s).len() > 0,
    decreases s.len(),
{
    if s.len() > 0 {
        lemma_pieces_nonempty(s.drop_last());
    }
}

/// Adds the cookies of a header that have nothing to do with routing.
fn add_unrelated(header: &[u8], out: &mut Vec<Vec<u8>>, seen: Ghost<Seq<Seq<u8>>>)
    requires
        cookie_views(old(out)@) == unrelated(seen@),
    ensures
        cookie_views(final(out)@) == unrelated(seen@ + cookies_among(pieces(header@))),
{
    let ghost keep = |c: Seq<u8>| name_of(c) != preview_name();
    let mut start: usize = 0;
    let mut i: usize = 0;
    let ghost mut done = Seq::<Seq<u8>>::empty();
    let ghost mut all = seen@;
    proof {
        assert(header@.take(0) =~= Seq::empty());
        assert(header@.subrange(0, 0) =~= Seq::empty());
        assert(pieces(header@.take(0)) =~= done.push(header@.subrange(0, 0)));
        assert(all =~= seen@ + cookies_among(done));
    }
    while i <= header.len()
        invariant
            start <= i <= header@.len() + 1,
            i <= header@.len() ==> pieces(header@.take(i as int)) == done.push(header@.subrange(start as int, i as int)),
            i == header@.len() + 1 ==> pieces(header@) == done,
            all == seen@ + cookies_among(done),
            keep == (|c: Seq<u8>| name_of(c) != preview_name()),
            cookie_views(out@) == all.filter(keep),
        decreases header@.len() + 1 - i,
    {
        if i == header.len() || header[i] == 59 {
            let cookie = trim_cookie_whitespace(header, start, i);
            let ghost piece = header@.subrange(start as int, i as int);
            proof {
                reveal(Seq::filter);
                let more = done.push(piece);
                assert(more.drop_last() =~= done);
                assert(cookies_among(more) == if cookie@.len() == 0 {
                    cookies_among(done)
                } else {
                    cookies_among(done).push(cookie@)
                });
                if cookie@.len() > 0 {
                    assert((seen@ + cookies_among(more)) =~= all.push(cookie@));
                    assert(all.push(cookie@).drop_last() =~= all);
                }
            }
            let ghost held = out@;
            let ghost said = cookie@;
            if cookie.len() > 0 && !is_preview(&cookie) {
                out.push(cookie);
                assert(cookie_views(out@) =~= cookie_views(held).push(said));
            }
            proof {
                if said.len() > 0 {
                    all = all.push(said);
                }
                done = done.push(piece);
                assert(all =~= seen@ + cookies_among(done));
                if i == header@.len() {
                    assert(header@.take(i as int) =~= header@);
                } else {
                    assert(header@.take(i + 1).drop_last() =~= header@.take(i as int));
                    assert(header@.take(i + 1).last() == 59);
                    assert(header@.subrange(i + 1, i + 1) =~= Seq::empty());
                    assert(pieces(header@.take(i + 1)) =~= done.push(header@.subrange(i + 1, i + 1)));
                }
            }
            if i == header.len() {
                assert(pieces(header@) == done);
                return;
            }
            start = i + 1;
        } else {
            proof {
                assert(header@.take(i + 1).drop_last() =~= header@.take(i as int));
                assert(header@.subrange(start as int, i as int).push(header@[i as int]) =~= header@.subrange(
                    start as int,
                    i + 1,
                ));
                assert(pieces(header@.take(i + 1)) =~= done.push(header@.subrange(start as int, i + 1)));
            }
        }
        i = i + 1;
    }
}

fn join_cookies(cookies: &Vec<Vec<u8>>) -> (r: Vec<u8>)
    ensures
        r@ == in_one_header(cookie_views(cookies@)),
{
    let ghost all = cookie_views(cookies@);
    let mut out: Vec<u8> = Vec::new();
    let mut i: usize = 0;
    assert(all.take(0) =~= Seq::empty());
    while i < cookies.len()
        invariant
            i <= cookies@.len(),
            all == cookie_views(cookies@),
            out@ == in_one_header(all.take(i as int)),
        decreases cookies@.len() - i,
    {
        let ghost part = all.take(i + 1);
        assert(part.drop_last() =~= all.take(i as int));
        assert(part.last() == cookies@[i as int]@);
        let ghost before = out@;
        if i > 0 {
            out.push(59);
            out.push(32);
        }
        let ghost start = out@;
        let mut k: usize = 0;
        while k < cookies[i].len()
            invariant
                i < cookies@.len(),
                k <= cookies@[i as int]@.len(),
                out@ == start + cookies@[i as int]@.take(k as int),
            decreases cookies@[i as int]@.len() - k,
        {
            let byte: u8 = cookies[i][k];
            out.push(byte);
            assert(out@ =~= start + cookies@[i as int]@.take(k + 1));
            k = k + 1;
        }
        proof {
            assert(cookies@[i as int]@.take(cookies@[i as int]@.len() as int) =~= cookies@[i as int]@);
            if i == 0 {
                assert(out@ =~= cookies@[0]@);
            } else {
                assert(start =~= before + seq![59u8, 32]);
            }
        }
        i = i + 1;
    }
    assert(all.take(all.len() as int) =~= all);
    out
}

/// The cookie header of a request to the plugin service: the cookies that the
/// caller gives, but for those that claim to route, and the cookie that routes
/// to the preview where that is enabled. There is none where no cookie is left.
pub fn plugin_service_routing_cookie(existing_cookie_headers: &[&[u8]], preview_enabled: bool) -> (r: Option<Vec<u8>>)
    ensures
        match r {
            Some(header) => routed(header_views(existing_cookie_headers@), preview_enabled).len() > 0 && header@
                == in_one_header(routed(header_views(existing_cookie_headers@), preview_enabled)),
            None => routed(header_views(existing_cookie_headers@), preview_enabled).len() == 0,
        },
{
    let ghost all = header_views(existing_cookie_headers@);
    let mut cookies: Vec<Vec<u8>> = Vec::new();
    let mut i: usize = 0;
    proof {
        reveal(Seq::filter);
        assert(all.take(0) =~= Seq::empty());
        assert(cookie_views(cookies@) =~= unrelated(cookies_in(all.take(0))));
    }
    while i < existing_cookie_headers.len()
        invariant
            i <= existing_cookie_headers@.len(),
            all == header_views(existing_cookie_headers@),
            cookie_views(cookies@) == unrelated(cookies_in(all.take(i as int))),
        decreases existing_cookie_headers@.len() - i,
    {
        assert(all.take(i + 1).drop_last() =~= all.take(i as int));
        assert(all.take(i + 1).last() == existing_cookie_headers@[i as int]@);
        add_unrelated(existing_cookie_headers[i], &mut cookies, Ghost(cookies_in(all.take(i as int))));
        i = i + 1;
    }
    assert(all.take(all.len() as int) =~= all);
    if preview_enabled {
        let mut preview = preview_name_bytes();
        preview.push(61);
        preview.push(116);
        preview.push(114);
        preview.push(117);
        preview.push(101);
        assert(preview@ =~= preview_cookie());
        let ghost held = cookies@;
        cookies.push(preview);
        assert(cookie_views(cookies@) =~= cookie_views(held).push(preview_cookie()));
    }
    assert(cookie_views(cookies@).len() == cookies@.len());
    if cookies.len() == 0 {
        None
    } else {
        Some(join_cookies(&cookies))
    }
}

// ---------------------------------------------------------------------
// What is read back
// ---------------------------------------------------------------------

/// Whether the bytes are a cookie that a header gives back as it is.
spec fn is_clean(cookie: Seq<u8>) -> bool {
    &&& cookie.len() > 0
    &&& !is_blank(cookie[0])
    &&& !is_blank(cookie.last())
    &&& !cookie.contains(59u8)
}

proof fn lemma_front_trimmed(s: Seq<u8>)
    ensures
        front_trimmed(s).len() > 0 ==> !is_blank(front_trimmed(s)[0]),
        forall|b: u8| front_trimmed(s).contains(b) ==> #[trigger] s.contains(b),
    decreases s.len(),
{
    if s.len() > 0 && is_blank(s[0]) {
        lemma_front_trimmed(s.skip(1));
        assert forall|b: u8| front_trimmed(s).contains(b) implies #[trigger] s.contains(b) by {
            assert(s.skip(1).contains(b));
            let k = choose|k: int| 0 <= k < s.skip(1).len() && s.skip(1)[k] == b;
            assert(s[k + 1] == b);
        }
    }
}

proof fn lemma_back_trimmed(s: Seq<u8>)
    ensures
        back_trimmed(s).len() > 0 ==> !is_blank(back_trimmed(s).last()) && back_trimmed(s)[0] == s[0],
        forall|b: u8| back_trimmed(s).contains(b) ==> #[trigger] s.contains(b),
    decreases s.len(),
{
    if s.len() > 0 && is_blank(s.last()) {
        lemma_back_trimmed(s.drop_last());
        assert forall|b: u8| back_trimmed(s).contains(b) implies #[trigger] s.contains(b) by {
            assert(s.drop_last().contains(b));
            let k = choose|k: int| 0 <= k < s.drop_last().len() && s.drop_last()[k] == b;
            assert(s[k] == b);
        }
    }
}

proof fn lemma_trimmed_is_clean(s: Seq<u8>)
    requires
        !s.contains(59u8),
        blank_trimmed(s).len() > 0,
    ensures
        is_clean(blank_trimmed(s)),
{
    lemma_front_trimmed(s);
    lemma_back_trimmed(front_trimmed(s));
}

proof fn lemma_pieces_hold_no_semicolon(s: Seq<u8>)
    ensures
        forall|i: int| 0 <= i < pieces(s).len() ==> !(#[trigger] pieces(s)[i]).contains(59u8),
        pieces(s).len() > 0,
    decreases s.len(),
{
    if s.len() > 0 {
        lemma_pieces_hold_no_semicolon(s.drop_last());
        let before = pieces(s.drop_last());
        assert forall|i: int| 0 <= i < pieces(s).len() implies !(#[trigger] pieces(s)[i]).contains(59u8) by {
            if s.last() == 59 {
                if i < before.len() {
                    assert(pieces(s)[i] == before[i]);
                }
            } else if i < before.len() - 1 {
                assert(pieces(s)[i] == before[i]);
            } else {
                let last = before[before.len() - 1];
                assert(pieces(s)[i] == last.push(s.last()));
                if pieces(s)[i].contains(59u8) {
                    let k = choose|k: int| 0 <= k < pieces(s)[i].len() && pieces(s)[i][k] == 59u8;
                    assert(k < last.len());
                    assert(last[k] == 59u8);
                    assert(last.contains(59u8));
                }
            }
        }
    }
}

proof fn lemma_cookies_are_clean(ps: Seq<Seq<u8>>)
    requires
        forall|i: int| 0 <= i < ps.len() ==> !(#[trigger] ps[i]).contains(59u8),
    ensures
        forall|i: int| 0 <= i < cookies_among(ps).len() ==> is_clean(#[trigger] cookies_among(ps)[i]),
    decreases ps.len(),
{
    if ps.len() > 0 {
        lemma_cookies_are_clean(ps.drop_last());
        assert(!ps[ps.len() - 1].contains(59u8));
        if blank_trimmed(ps.last()).len() > 0 {
            lemma_trimmed_is_clean(ps.last());
        }
        let before = cookies_among(ps.drop_last());
        assert forall|i: int| 0 <= i < cookies_among(ps).len() implies is_clean(#[trigger] cookies_among(ps)[i]) by {
            if i < before.len() {
                assert(cookies_among(ps)[i] == before[i]);
            }
        }
    }
}

proof fn lemma_headers_are_clean(headers: Seq<Seq<u8>>)
    ensures
        forall|i: int| 0 <= i < cookies_in(headers).len() ==> is_clean(#[trigger] cookies_in(headers)[i]),
    decreases headers.len(),
{
    if headers.len() > 0 {
        lemma_headers_are_clean(headers.drop_last());
        lemma_pieces_hold_no_semicolon(headers.last());
        lemma_cookies_are_clean(pieces(headers.last()));
        let before = cookies_in(headers.drop_last());
        let more = cookies_among(pieces(headers.last()));
        assert forall|i: int| 0 <= i < cookies_in(headers).len() implies is_clean(
            #[trigger] cookies_in(headers)[i],
        ) by {
            if i < before.len() {
                assert(cookies_in(headers)[i] == before[i]);
            } else {
                assert(cookies_in(headers)[i] == more[i - before.len()]);
            }
        }
    }
}

proof fn lemma_plain_piece(a: Seq<u8>, b: Seq<u8>)
    requires
        !b.contains(59u8),
    ensures
        pieces(a + seq![59u8] + b) == pieces(a).push(b),
        pieces(b) == seq![b],
    decreases b.len(),
{
    if b.len() == 0 {
        assert((a + seq![59u8] + b).drop_last() =~= a);
        assert((a + seq![59u8] + b).last() == 59u8);
        assert(b =~= Seq::empty());
    } else {
        let front = b.drop_last();
        assert(!front.contains(59u8)) by {
            if front.contains(59u8) {
                let k = choose|k: int| 0 <= k < front.len() && front[k] == 59u8;
                assert(b[k] == 59u8);
            }
        }
        assert(b[b.len() - 1] != 59u8);
        lemma_plain_piece(a, front);
        let whole = a + seq![59u8] + b;
        assert(whole.drop_last() =~= a + seq![59u8] + front);
        assert(whole.last() == b.last());
        assert(front.push(b.last()) =~= b);
        assert(pieces(a).push(front).drop_last() =~= pieces(a));
        assert(seq![front].drop_last().push(front.push(b.last())) =~= seq![b]);
    }
}

proof fn lemma_clean_is_trimmed(c: Seq<u8>)
    requires
        is_clean(c),
    ensures
        blank_trimmed(c) == c,
        blank_trimmed(seq![32u8] + c) == c,
{
    assert((seq![32u8] + c).skip(1) =~= c);
    assert(front_trimmed(seq![32u8] + c) == front_trimmed(c));
}

proof fn lemma_read_back(cookies: Seq<Seq<u8>>)
    requires
        forall|i: int| 0 <= i < cookies.len() ==> is_clean(#[trigger] cookies[i]),
    ensures
        cookies_among(pieces(in_one_header(cookies))) == cookies,
    decreases cookies.len(),
{
    reveal_with_fuel(cookies_among, 2);
    if cookies.len() == 0 {
        assert(cookies_among(pieces(in_one_header(cookies))) =~= cookies);
    } else {
        let last = cookies[cookies.len() - 1];
        assert(is_clean(last));
        lemma_clean_is_trimmed(last);
        if cookies.len() == 1 {
            lemma_plain_piece(Seq::empty(), last);
            assert(seq![last].drop_last() =~= Seq::empty());
            assert(cookies_among(pieces(in_one_header(cookies))) =~= cookies);
        } else {
            let front = cookies.drop_last();
            lemma_read_back(front);
            let a = in_one_header(front);
            let b = seq![32u8] + last;
            assert(!b.contains(59u8)) by {
                if b.contains(59u8) {
                    let k = choose|k: int| 0 <= k < b.len() && b[k] == 59u8;
                    assert(k > 0);
                    assert(last[k - 1] == 59u8);
                    assert(last.contains(59u8));
                }
            }
            assert(in_one_header(cookies) =~= a + seq![59u8] + b);
            lemma_plain_piece(a, b);
            assert(pieces(a).push(b).drop_last() =~= pieces(a));
            assert(cookies_among(pieces(in_one_header(cookies))) =~= front.push(last));
            assert(front.push(last) =~= cookies);
        }
    }
}

/// The header that is sent gives back exactly the cookies that have nothing to
/// do with routing, in order, and behind them the cookie that routes to the
/// preview where that is enabled. No other cookie in it claims to route.
pub proof fn law_routing_cannot_be_overridden(headers: Seq<Seq<u8>>, preview_enabled: bool)
    ensures
        cookies_in(seq![in_one_header(routed(headers, preview_enabled))]) == routed(headers, preview_enabled),
        forall|i: int|
            0 <= i < routed(headers, preview_enabled).len() && name_of(#[trigger] routed(headers, preview_enabled)[i])
                == preview_name() ==> preview_enabled && i == routed(headers, preview_enabled).len() - 1,
        preview_enabled ==> routed(headers, preview_enabled).last() == preview_cookie(),
{
    let keep = |c: Seq<u8>| name_of(c) != preview_name();
    let given = cookies_in(headers);
    let out = routed(headers, preview_enabled);
    lemma_headers_are_clean(headers);
    broadcast use vstd::seq_lib::group_filter_ensures;

    assert forall|i: int| 0 <= i < out.len() implies is_clean(#[trigger] out[i]) by {
        if i < unrelated(given).len() {
            assert(out[i] == given.filter(keep)[i]);
            assert(given.filter(keep).contains(out[i]));
            given.lemma_filter_contains_rev(keep, out[i]);
        } else {
            let c = preview_cookie();
            assert(c.len() == 36);
            assert(c[0] == 111u8);
            assert(c.last() == 101u8);
            assert(!c.contains(59u8));
        }
    }
    lemma_read_back(out);
    let one = seq![in_one_header(out)];
    assert(one.drop_last() =~= Seq::empty());
    assert(cookies_in(one.drop_last()) =~= Seq::empty());
    assert(cookies_in(one) =~= out);
    assert forall|i: int| 0 <= i < out.len() && name_of(#[trigger] out[i]) == preview_name() implies preview_enabled
        && i == out.len() - 1 by {
        if i < unrelated(given).len() {
            assert(keep(unrelated(given)[i]));
        }
    }
}

/// The cookie that routes to the preview is `oai-chat-plugin-service-preview=true`.
pub proof fn law_preview_cookie_says_true()
    ensures
        preview_cookie().len() == 36,
        forall|i: int|
            0 <= i < 36 ==> #[trigger] preview_cookie()[i] as int
                == "oai-chat-plugin-service-preview=true"@[i] as int,
        "oai-chat-plugin-service-preview=true"@.len() == 36,
        name_of(preview_cookie()) == preview_name(),
{
    reveal_strlit("oai-chat-plugin-service-preview=true");
    let name = preview_name();
    assert(!name.contains(61u8));
    law_cookie_is_named_in_front_of_the_equals_sign(name, seq![116u8, 114, 117, 101]);
    assert(name + seq![61u8] + seq![116u8, 114, 117, 101] =~= preview_cookie());
}

/// A cookie is named by what stands in front of its first equals sign, without
/// the blanks around it, and by the whole of it where it has none.
pub proof fn law_cookie_is_named_in_front_of_the_equals_sign(name: Seq<u8>, value: Seq<u8>)
    requires
        !name.contains(61u8),
        name.len() > 0 ==> name[0] != 32 && name[0] != 9 && name.last() != 32 && name.last() != 9,
    ensures
        name_of(name + seq![61u8] + value) == name,
        name_of(name) == name,
{
    lemma_name_len(name, seq![61u8] + value);
    lemma_name_len(name, Seq::empty());
    assert(name + (seq![61u8] + value) =~= name + seq![61u8] + value);
    assert(name + Seq::empty() =~= name);
    assert((name + seq![61u8] + value).take(name.len() as int) =~= name);
    assert(name.take(name.len() as int) =~= name);
    assert(front_trimmed(name) == name);
    assert(back_trimmed(name) == name);
}

proof fn lemma_name_len(name: Seq<u8>, rest: Seq<u8>)
    requires
        !name.contains(61u8),
        rest.len() == 0 || rest[0] == 61,
    ensures
        name_len(name + rest) == name.len(),
    decreases name.len(),
{
    let s = name + rest;
    if name.len() > 0 {
        assert(name[0] != 61u8) by {
            assert(name.contains(name[0]));
        }
        assert(!name.skip(1).contains(61u8)) by {
            if name.skip(1).contains(61u8) {
                let k = choose|k: int| 0 <= k < name.skip(1).len() && name.skip(1)[k] == 61u8;
                assert(name[k + 1] == 61u8);
                assert(name.contains(61u8));
            }
        }
        lemma_name_len(name.skip(1), rest);
        assert(s.skip(1) =~= name.skip(1) + rest);
    } else {
        assert(s =~= rest);
    }
}

/// Every cookie that is given and has another name is sent, in the order in
/// which it was given, and nothing else is but the cookie that routes.
pub proof fn law_other_cookies_are_sent_as_given(headers: Seq<Seq<u8>>, preview_enabled: bool, cookie: Seq<u8>)
    ensures
        name_of(cookie) != preview_name() ==> (routed(headers, preview_enabled).contains(cookie) <==> cookies_in(
            headers,
        ).contains(cookie)),
        name_of(cookie) == preview_name() && !preview_enabled ==> !routed(headers, preview_enabled).contains(cookie),
        (forall|i: int| 0 <= i < cookies_in(headers).len() ==> name_of(#[trigger] cookies_in(headers)[i])
            != preview_name()) ==> routed(headers, false) == cookies_in(headers) && routed(headers, true)
            == cookies_in(headers).push(preview_cookie()),
{
    let keep = |c: Seq<u8>| name_of(c) != preview_name();
    let given = cookies_in(headers);
    let kept = given.filter(keep);
    broadcast use vstd::seq_lib::group_filter_ensures;

    law_preview_cookie_says_true();
    assert(kept == unrelated(given));
    if given.contains(cookie) && keep(cookie) {
        let k = choose|k: int| 0 <= k < given.len() && given[k] == cookie;
        assert(kept.contains(given[k]));
    }
    if kept.contains(cookie) {
        given.lemma_filter_contains_rev(keep, cookie);
        let k = choose|k: int| 0 <= k < kept.len() && kept[k] == cookie;
        assert(keep(kept[k]));
    }
    let out = routed(headers, preview_enabled);
    if preview_enabled {
        assert(out == kept.push(preview_cookie()));
        if kept.contains(cookie) {
            let k = choose|k: int| 0 <= k < kept.len() && kept[k] == cookie;
            assert(out[k] == cookie);
        }
        if out.contains(cookie) && name_of(cookie) != preview_name() {
            let k = choose|k: int| 0 <= k < out.len() && out[k] == cookie;
            assert(k < kept.len());
            assert(kept[k] == cookie);
        }
    }
    if forall|i: int| 0 <= i < given.len() ==> name_of(#[trigger] given[i]) != preview_name() {
        lemma_all_kept(given);
    }
}

proof fn lemma_all_kept(given: Seq<Seq<u8>>)
    requires
        forall|i: int| 0 <= i < given.len() ==> name_of(#[trigger] given[i]) != preview_name(),
    ensures
        unrelated(given) == given,
    decreases given.len(),
{
    reveal(Seq::filter);
    if given.len() > 0 {
        let front = given.drop_last();
        assert forall|i: int| 0 <= i < front.len() implies name_of(#[trigger] front[i]) != preview_name() by {
            assert(front[i] == given[i]);
        }
        lemma_all_kept(front);
        assert(name_of(given[given.len() - 1]) != preview_name());
        assert(given =~= front.push(given.last()));
    }
}

/// The cookies of a header stand between its semicolons, without the blanks
/// around them; the headers are read one behind the other.
pub proof fn law_cookies_stand_between_semicolons(headers: Seq<Seq<u8>>, cookies: Seq<Seq<u8>>)
    requires
        forall|i: int|
            0 <= i < cookies.len() ==> (#[trigger] cookies[i]).len() > 0 && cookies[i][0] != 32 && cookies[i][0] != 9
                && cookies[i].last() != 32 && cookies[i].last() != 9 && !cookies[i].contains(59u8),
    ensures
        cookies_in(headers.push(in_one_header(cookies))) == cookies_in(headers) + cookies,
{
    assert forall|i: int| 0 <= i < cookies.len() implies is_clean(#[trigger] cookies[i]) by {}
    lemma_read_back(cookies);
    assert(headers.push(in_one_header(cookies)).drop_last() =~= headers);
}

} // verus!

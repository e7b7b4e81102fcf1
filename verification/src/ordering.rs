//! Sorting by a two-part key, largest first.

use vstd::prelude::*;

verus! {

/// A value with the key that it is sorted by.
#[derive(Debug, PartialEq, Eq)]
pub struct Keyed<T> {
    pub major: i128,
    pub minor: u128,
    pub value: T,
}

/// Whether the key of `a` is larger than that of `b`.
pub open spec fn above<T>(a: Keyed<T>, b: Keyed<T>) -> bool {
    a.major > b.major || (a.major == b.major && a.minor > b.minor)
}

/// Whether no key is larger than one before it.
pub open spec fn descending<T>(s: Seq<Keyed<T>>) -> bool {
    forall|i: int, j: int| 0 <= i < j < s.len() ==> !above(#[trigger] s[j], #[trigger] s[i])
}

/// The number of leading items with keys larger than that of `x`.
pub open spec fn lead<T>(s: Seq<Keyed<T>>, x: Keyed<T>) -> nat
    decreases s.len(),
{
    if s.len() > 0 && above(s[0], x) {
        1 + lead(s.skip(1), x)
    } else {
        0
    }
}

/// The items sorted by key, largest first; items with equal keys keep their
/// order.
pub open spec fn sorted<T>(s: Seq<Keyed<T>>) -> Seq<Keyed<T>>
    decreases s.len(),
{
    if s.len() == 0 {
        s
    } else {
        let rest = sorted(s.skip(1));
        rest.insert(lead(rest, s[0]) as int, s[0])
    }
}

/// The leading items with larger keys are those before the first that has none.
pub proof fn lemma_lead<T>(s: Seq<Keyed<T>>, x: Keyed<T>)
    ensures
        lead(s, x) <= s.len(),
        forall|i: int| 0 <= i < lead(s, x) ==> above(#[trigger] s[i], x),
        lead(s, x) < s.len() ==> !above(s[lead(s, x) as int], x),
    decreases s.len(),
{
    if s.len() > 0 && above(s[0], x) {
        lemma_lead(s.skip(1), x);
        assert forall|i: int| 0 <= i < lead(s, x) implies above(#[trigger] s[i], x) by {
            if i > 0 {
                assert(s.skip(1)[i - 1] == s[i]);
            }
        }
    }
}

/// Sorting keeps the items and leaves the keys in descending order.
pub proof fn lemma_sorted<T>(s: Seq<Keyed<T>>)
    ensures
        sorted(s).to_multiset() == s.to_multiset(),
        sorted(s).len() == s.len(),
        descending(sorted(s)),
    decreases s.len(),
{
    broadcast use vstd::seq_lib::group_to_multiset_ensures;

    if s.len() > 0 {
        let x = s[0];
        let rest = sorted(s.skip(1));
        lemma_sorted(s.skip(1));
        lemma_lead(rest, x);
        let k = lead(rest, x) as int;
        let out = rest.insert(k, x);
        assert forall|i: int, j: int| 0 <= i < j < out.len() implies !above(#[trigger] out[j], #[trigger] out[i]) by {
            if i < k && j > k {
                assert(out[i] == rest[i] && out[j] == rest[j - 1]);
            } else if i < k && j < k {
                assert(out[i] == rest[i] && out[j] == rest[j]);
            } else if i == k {
                assert(out[j] == rest[j - 1]);
                if j > k + 1 {
                    assert(!above(rest[j - 1], rest[k]));
                }
            } else if i > k {
                assert(out[i] == rest[i - 1] && out[j] == rest[j - 1]);
            } else {
                assert(out[i] == rest[i] && out[j] == x);
            }
        }
        assert(out.len() == rest.len() + 1);
        vstd::seq_lib::to_multiset_insert(rest, k, x);
        assert(s =~= seq![x] + s.skip(1));
        assert(s =~= s.skip(1).insert(0, x));
        vstd::seq_lib::to_multiset_insert(s.skip(1), 0, x);
    }
}

/// Sorts by key, largest first, keeping the order of items with equal keys.
pub fn sort_desc<T>(items: Vec<Keyed<T>>) -> (r: Vec<Keyed<T>>)
    ensures
        r@ == sorted(items@),
        r@.to_multiset() == items@.to_multiset(),
        r@.len() == items@.len(),
        descending(r@),
{
    let ghost all = items@;
    let mut todo = items;
    let mut out: Vec<Keyed<T>> = Vec::new();
    assert(all.skip(all.len() as int) =~= Seq::empty());
    assert(all.take(all.len() as int) =~= all);
    while todo.len() > 0
        invariant
            todo@.len() <= all.len(),
            todo@ == all.take(todo@.len() as int),
            out@ == sorted(all.skip(todo@.len() as int)),
        decreases todo.len(),
    {
        let ghost n = todo@.len() as int;
        let x = match todo.pop() {
            Some(x) => x,
            None => return out,
        };
        let mut k: usize = 0;
        proof {
            lemma_lead(out@, x);
            assert(x == all[n - 1]);
            assert(todo@ =~= all.take(n - 1));
            assert(all.skip(n - 1)[0] == x);
            assert(all.skip(n - 1).skip(1) =~= all.skip(n));
        }
        while k < out.len() && (out[k].major > x.major || (out[k].major == x.major && out[k].minor > x.minor))
            invariant
                k <= lead(out@, x) <= out@.len(),
                forall|i: int| 0 <= i < lead(out@, x) ==> above(#[trigger] out@[i], x),
                lead(out@, x) < out@.len() ==> !above(out@[lead(out@, x) as int], x),
            decreases out.len() - k,
        {
            k = k + 1;
        }
        assert(k == lead(out@, x)) by {
            if k < lead(out@, x) {
                assert(above(out@[k as int], x));
            }
        }
        out.insert(k, x);
    }
    assert(all.skip(0) =~= all);
    proof {
        lemma_sorted(all);
    }
    out
}

/// The larger first part goes first, and among equal first parts the larger
/// second part.
pub proof fn law_first_part_goes_before_the_second<T>(s: Seq<Keyed<T>>, i: int, j: int)
    requires
        0 <= i < j < s.len(),
    ensures
        sorted(s).len() == s.len(),
        sorted(s)[i].major >= sorted(s)[j].major,
        sorted(s)[i].major == sorted(s)[j].major ==> sorted(s)[i].minor >= sorted(s)[j].minor,
{
    lemma_sorted(s);
    assert(!above(sorted(s)[j], sorted(s)[i]));
}

/// The items of one key.
pub open spec fn of_key<T>(s: Seq<Keyed<T>>, major: i128, minor: u128) -> Seq<Keyed<T>> {
    s.filter(|x: Keyed<T>| x.major == major && x.minor == minor)
}

/// Items of one key come out in the order in which they went in.
pub proof fn law_equal_keys_keep_their_order<T>(s: Seq<Keyed<T>>, major: i128, minor: u128)
    ensures
        of_key(sorted(s), major, minor) == of_key(s, major, minor),
    decreases s.len(),
{
    let f = |x: Keyed<T>| x.major == major && x.minor == minor;
    if s.len() > 0 {
        let x = s[0];
        let rest = sorted(s.skip(1));
        law_equal_keys_keep_their_order(s.skip(1), major, minor);
        lemma_lead(rest, x);
        let k = lead(rest, x) as int;
        let a = rest.take(k);
        let b = rest.skip(k);
        assert(rest =~= a + b);
        assert(sorted(s) =~= a + seq![x] + b);
        assert(s =~= seq![x] + s.skip(1));
        Seq::filter_distributes_over_add(a + seq![x], b, f);
        Seq::filter_distributes_over_add(a, seq![x], f);
        Seq::filter_distributes_over_add(a, b, f);
        Seq::filter_distributes_over_add(seq![x], s.skip(1), f);
        reveal_with_fuel(Seq::filter, 2);
        assert(seq![x].drop_last() =~= Seq::empty());
        if f(x) {
            if a.filter(f).len() > 0 {
                a.lemma_filter_pred(f, 0);
                let y = a.filter(f)[0];
                assert(a.filter(f).contains(y));
                a.lemma_filter_contains_rev(f, y);
                let i = choose|i: int| 0 <= i < a.len() && a[i] == y;
                assert(rest[i] == y && above(rest[i], x));
            }
            assert(a.filter(f) =~= Seq::empty());
        }
        assert(sorted(s).filter(f) =~= s.filter(f));
    }
}

} // verus!

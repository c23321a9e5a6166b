//! Lexicographic order on strings and sorting of string lists.

use vstd::prelude::*;
use vstd::string::*;
use crate::text::chars_of;

verus! {

/// `a` comes no later than `b` in lexicographic order by code point, the
/// order in which `String` values sort.
pub open spec fn precedes(a: Seq<char>, b: Seq<char>) -> bool
    decreases a.len(),
{
    if a.len() == 0 {
        true
    } else if b.len() == 0 {
        false
    } else if a[0] != b[0] {
        a[0] < b[0]
    } else {
        precedes(a.drop_first(), b.drop_first())
    }
}

/// Each element comes no later than every element after it.
pub open spec fn ordered(s: Seq<Seq<char>>) -> bool {
    forall|i: int, j: int| 0 <= i < j < s.len() ==> precedes(#[trigger] s[i], #[trigger] s[j])
}

/// `s`, in which `x` has been placed after the last element that precedes it.
pub open spec fn insert_ordered(s: Seq<Seq<char>>, x: Seq<char>) -> Seq<Seq<char>>
    decreases s.len(),
{
    if s.len() == 0 {
        seq![x]
    } else if precedes(s.last(), x) {
        s.push(x)
    } else {
        insert_ordered(s.drop_last(), x).push(s.last())
    }
}

/// The elements of `s` in lexicographic order.
pub open spec fn sorted(s: Seq<Seq<char>>) -> Seq<Seq<char>>
    decreases s.len(),
{
    if s.len() == 0 {
        s
    } else {
        insert_ordered(sorted(s.drop_last()), s.last())
    }
}

/// Of two strings, one precedes the other.
pub proof fn lemma_precedes_total(a: Seq<char>, b: Seq<char>)
    ensures
        precedes(a, b) || precedes(b, a),
    decreases a.len(),
{
    if a.len() > 0 && b.len() > 0 && a[0] == b[0] {
        lemma_precedes_total(a.drop_first(), b.drop_first());
    }
}

/// The order is transitive.
pub proof fn lemma_precedes_transitive(a: Seq<char>, b: Seq<char>, c: Seq<char>)
    requires
        precedes(a, b),
        precedes(b, c),
    ensures
        precedes(a, c),
    decreases a.len(),
{
    if a.len() > 0 && b.len() > 0 && c.len() > 0 {
        if a[0] == b[0] && b[0] == c[0] {
            lemma_precedes_transitive(a.drop_first(), b.drop_first(), c.drop_first());
        }
    }
}

/// Placing `x` into an ordered list at the position found by scanning from
/// the end gives `insert_ordered`.
pub proof fn lemma_insert_position(s: Seq<Seq<char>>, x: Seq<char>, p: int)
    requires
        0 <= p <= s.len(),
        p > 0 ==> precedes(s[p - 1], x),
        forall|j: int| p <= j < s.len() ==> !precedes(#[trigger] s[j], x),
    ensures
        insert_ordered(s, x) == s.insert(p, x),
    decreases s.len() - p,
{
    if s.len() == 0 {
        assert(s.insert(p, x) =~= seq![x]);
    } else if p == s.len() {
        assert(s.insert(p, x) =~= s.push(x));
    } else {
        assert(!precedes(s.last(), x));
        let rest = s.drop_last();
        assert forall|j: int| p <= j < rest.len() implies !precedes(#[trigger] rest[j], x) by {
            assert(rest[j] == s[j]);
        }
        if p > 0 {
            assert(rest[p - 1] == s[p - 1]);
        }
        lemma_insert_position(rest, x, p);
        assert(rest.insert(p, x).push(s.last()) =~= s.insert(p, x));
    }
}

/// Inserting into an ordered list keeps it ordered and adds exactly `x`.
pub proof fn lemma_insert_ordered(s: Seq<Seq<char>>, x: Seq<char>)
    requires
        ordered(s),
    ensures
        ordered(insert_ordered(s, x)),
        insert_ordered(s, x).to_multiset() == s.to_multiset().insert(x),
        insert_ordered(s, x).len() == s.len() + 1,
    decreases s.len(),
{
    broadcast use vstd::seq_lib::group_to_multiset_ensures;

    let r = insert_ordered(s, x);
    if s.len() == 0 {
        assert(r =~= s.push(x));
    } else if precedes(s.last(), x) {
        assert forall|i: int, j: int| 0 <= i < j < r.len() implies precedes(
            #[trigger] r[i],
            #[trigger] r[j],
        ) by {
            if j == s.len() && i < s.len() - 1 {
                lemma_precedes_transitive(s[i], s.last(), x);
            }
        }
    } else {
        let rest = s.drop_last();
        assert forall|i: int, j: int| 0 <= i < j < rest.len() implies precedes(
            #[trigger] rest[i],
            #[trigger] rest[j],
        ) by {
            assert(rest[i] == s[i] && rest[j] == s[j]);
        }
        lemma_insert_ordered(rest, x);
        let inner = insert_ordered(rest, x);
        lemma_precedes_total(s.last(), x);
        assert forall|i: int, j: int| 0 <= i < j < r.len() implies precedes(
            #[trigger] r[i],
            #[trigger] r[j],
        ) by {
            if j == r.len() - 1 {
                // every element of `inner` is `x` or an element of `rest`
                assert(inner.to_multiset().count(inner[i]) > 0);
                if inner[i] != x {
                    assert(rest.to_multiset().count(inner[i]) > 0);
                    let k = choose|k: int| 0 <= k < rest.len() && rest[k] == inner[i];
                    assert(precedes(s[k], s[s.len() - 1]));
                }
            }
        }
        assert(s =~= rest.push(s.last()));
        assert(r.to_multiset() =~= s.to_multiset().insert(x));
    }
}

/// Sorting yields an ordered arrangement of the same elements.
pub proof fn lemma_sorted(s: Seq<Seq<char>>)
    ensures
        ordered(sorted(s)),
        sorted(s).to_multiset() == s.to_multiset(),
        sorted(s).len() == s.len(),
    decreases s.len(),
{
    broadcast use vstd::seq_lib::group_to_multiset_ensures;

    if s.len() > 0 {
        lemma_sorted(s.drop_last());
        lemma_insert_ordered(sorted(s.drop_last()), s.last());
        assert(s =~= s.drop_last().push(s.last()));
    }
}

/// Whether `a` comes no later than `b` in lexicographic order.
pub fn comes_before(a: &str, b: &str) -> (r: bool)
    ensures
        r == precedes(a@, b@),
{
    let x = chars_of(a);
    let y = chars_of(b);
    let mut i: usize = 0;
    assert(a@.skip(0) =~= a@ && b@.skip(0) =~= b@);
    while i < x.len() && i < y.len()
        invariant
            i <= x.len(),
            i <= y.len(),
            x@ == a@,
            y@ == b@,
            precedes(a@, b@) == precedes(a@.skip(i as int), b@.skip(i as int)),
        decreases x.len() - i,
    {
        let ghost ra = a@.skip(i as int);
        let ghost rb = b@.skip(i as int);
        assert(ra[0] == x@[i as int] && rb[0] == y@[i as int]);
        if x[i] != y[i] {
            return x[i] < y[i];
        }
        assert(ra.drop_first() =~= a@.skip(i + 1));
        assert(rb.drop_first() =~= b@.skip(i + 1));
        i += 1;
    }
    i == x.len()
}

/// The strings of `items` in lexicographic order, as `sort` arranges a
/// `Vec<String>`.
pub fn sort(items: Vec<String>) -> (r: Vec<String>)
    ensures
        r.deep_view() == sorted(items.deep_view()),
{
    let mut out: Vec<String> = Vec::new();
    let ghost all = items.deep_view();
    let mut n: usize = 0;
    while n < items.len()
        invariant
            n <= items.len(),
            items.deep_view() == all,
            out.deep_view() == sorted(all.take(n as int)),
            out.len() == n,
        decreases items.len() - n,
    {
        let item = items[n].clone();
        let mut p: usize = out.len();
        while p > 0 && !comes_before(out[p - 1].as_str(), item.as_str())
            invariant
                p <= out.len(),
                forall|j: int| p <= j < out.len() ==> !precedes(#[trigger] out.deep_view()[j], item@),
            decreases p,
        {
            p -= 1;
        }
        proof {
            let before = out.deep_view();
            lemma_insert_position(before, item@, p as int);
            assert(all.take(n + 1).drop_last() =~= all.take(n as int));
            assert(all.take(n + 1).last() == item@);
        }
        let ghost before = out.deep_view();
        out.insert(p, item);
        assert(out.deep_view() =~= before.insert(p as int, item@));
        n += 1;
    }
    assert(all.take(n as int) =~= all);
    out
}

} // verus!

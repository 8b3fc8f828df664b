//! The lexicographic order of strings, and listings sorted in it.
//!
//! `String`'s `Ord` compares the UTF-8 bytes, which orders strings as
//! their characters' code points compare, first difference first and a
//! prefix before its extensions; `lex_le` states that order over
//! characters.

use vstd::prelude::*;

verus! {

broadcast use vstd::seq_lib::group_to_multiset_ensures;

/// `a` comes before `b`, or equals it, in lexicographic order of code
/// points.
pub open spec fn lex_le(a: Seq<char>, b: Seq<char>) -> bool
    decreases a.len(),
{
    if a.len() == 0 {
        true
    } else if b.len() == 0 {
        false
    } else if a[0] == b[0] {
        lex_le(a.drop_first(), b.drop_first())
    } else {
        (a[0] as u32) < (b[0] as u32)
    }
}

/// Each of `s` comes no later than those after it.
pub open spec fn lex_sorted(s: Seq<Seq<char>>) -> bool {
    forall|i: int, j: int| 0 <= i < j < s.len() ==> lex_le(#[trigger] s[i], #[trigger] s[j])
}

/// The characters of each string of `v`.
pub open spec fn views(v: Seq<String>) -> Seq<Seq<char>> {
    v.map_values(|s: String| s@)
}

/// Every string comes no later than itself.
pub proof fn lemma_lex_reflexive(a: Seq<char>)
    ensures
        lex_le(a, a),
    decreases a.len(),
{
    if a.len() > 0 {
        lemma_lex_reflexive(a.drop_first());
    }
}

/// Any two strings are ordered one way or the other.
pub proof fn lemma_lex_total(a: Seq<char>, b: Seq<char>)
    ensures
        lex_le(a, b) || lex_le(b, a),
    decreases a.len(),
{
    if a.len() > 0 && b.len() > 0 && a[0] == b[0] {
        lemma_lex_total(a.drop_first(), b.drop_first());
    } else if a.len() > 0 && b.len() > 0 {
        lemma_char_code_injective(a[0], b[0]);
    }
}

/// Distinct characters have distinct code points.
proof fn lemma_char_code_injective(c: char, d: char)
    requires
        c != d,
    ensures
        (c as u32) != (d as u32),
{
}

/// The order is transitive.
pub proof fn lemma_lex_transitive(a: Seq<char>, b: Seq<char>, c: Seq<char>)
    requires
        lex_le(a, b),
        lex_le(b, c),
    ensures
        lex_le(a, c),
    decreases a.len(),
{
    if a.len() > 0 && b.len() > 0 && c.len() > 0 && a[0] == b[0] && b[0] == c[0] {
        lemma_lex_transitive(a.drop_first(), b.drop_first(), c.drop_first());
    }
}

/// Two strings that are each no later than the other are equal.
pub proof fn lemma_lex_antisymmetric(a: Seq<char>, b: Seq<char>)
    requires
        lex_le(a, b),
        lex_le(b, a),
    ensures
        a == b,
    decreases a.len(),
{
    if a.len() > 0 && b.len() > 0 {
        if a[0] == b[0] {
            lemma_lex_antisymmetric(a.drop_first(), b.drop_first());
            assert(a =~= seq![a[0]] + a.drop_first());
            assert(b =~= seq![b[0]] + b.drop_first());
        }
    } else {
        assert(a =~= b);
    }
}

/// The order is that of `String`s: a string comes before its extensions,
/// and otherwise the first character where two strings differ decides,
/// by code point.
pub proof fn lemma_lex_is_string_order(a: Seq<char>, b: Seq<char>, i: int)
    ensures
        a.len() <= b.len() && b.take(a.len() as int) == a ==> lex_le(a, b),
        a.len() < b.len() && b.take(a.len() as int) == a ==> !lex_le(b, a),
        0 <= i < a.len() && i < b.len() && a.take(i) == b.take(i) && a[i] != b[i] ==> (lex_le(a, b)
            <==> (a[i] as u32) < (b[i] as u32)),
{
    if a.len() <= b.len() && b.take(a.len() as int) == a {
        assert(a.take(a.len() as int) =~= b.take(a.len() as int));
        lemma_lex_skip(a, b, a.len() as int);
        lemma_lex_skip(b, a, a.len() as int);
        assert(a.skip(a.len() as int) =~= Seq::<char>::empty());
    }
    if 0 <= i < a.len() && i < b.len() && a.take(i) == b.take(i) && a[i] != b[i] {
        lemma_lex_skip(a, b, i);
        assert(a.skip(i)[0] == a[i]);
        assert(b.skip(i)[0] == b[i]);
    }
}

/// Strings that agree on their first `i` characters compare as the rest
/// of them do.
proof fn lemma_lex_skip(a: Seq<char>, b: Seq<char>, i: int)
    requires
        0 <= i <= a.len(),
        i <= b.len(),
        a.take(i) == b.take(i),
    ensures
        lex_le(a, b) == lex_le(a.skip(i), b.skip(i)),
    decreases i,
{
    if i > 0 {
        assert(a[0] == a.take(i)[0]);
        assert(b[0] == b.take(i)[0]);
        assert(a.drop_first().take(i - 1) =~= a.take(i).drop_first());
        assert(b.drop_first().take(i - 1) =~= b.take(i).drop_first());
        lemma_lex_skip(a.drop_first(), b.drop_first(), i - 1);
        assert(a.drop_first().skip(i - 1) =~= a.skip(i));
        assert(b.drop_first().skip(i - 1) =~= b.skip(i));
    } else {
        assert(a.skip(0) =~= a);
        assert(b.skip(0) =~= b);
    }
}

/// A sorted listing is determined by what it lists: two sorted sequences
/// holding the same strings, as many times each, are equal. So a listing
/// sorted here is the one `String`'s sort gives, whatever order its
/// strings came in.
pub proof fn lemma_sorted_unique(a: Seq<Seq<char>>, b: Seq<Seq<char>>)
    requires
        lex_sorted(a),
        lex_sorted(b),
        a.to_multiset() == b.to_multiset(),
    ensures
        a == b,
    decreases a.len(),
{
    broadcast use vstd::multiset::group_multiset_axioms;

    vstd::seq_lib::to_multiset_len(a);
    vstd::seq_lib::to_multiset_len(b);
    if a.len() == 0 {
        assert(a =~= b);
    } else {
        vstd::seq_lib::to_multiset_contains(a, a[0]);
        vstd::seq_lib::to_multiset_contains(b, b[0]);
        vstd::seq_lib::to_multiset_contains(a, b[0]);
        vstd::seq_lib::to_multiset_contains(b, a[0]);
        let i = choose|i: int| 0 <= i < a.len() && a[i] == b[0];
        let j = choose|j: int| 0 <= j < b.len() && b[j] == a[0];
        if i > 0 {
            assert(lex_le(a[0], a[i]));
        } else {
            lemma_lex_reflexive(a[0]);
        }
        if j > 0 {
            assert(lex_le(b[0], b[j]));
        } else {
            lemma_lex_reflexive(b[0]);
        }
        lemma_lex_antisymmetric(a[0], b[0]);
        vstd::seq_lib::to_multiset_remove(a, 0);
        vstd::seq_lib::to_multiset_remove(b, 0);
        assert(a.remove(0) =~= a.drop_first());
        assert(b.remove(0) =~= b.drop_first());
        assert forall|i: int, j: int| 0 <= i < j < a.drop_first().len() implies lex_le(
            #[trigger] a.drop_first()[i],
            #[trigger] a.drop_first()[j],
        ) by {
            assert(lex_le(a[i + 1], a[j + 1]));
        }
        assert forall|i: int, j: int| 0 <= i < j < b.drop_first().len() implies lex_le(
            #[trigger] b.drop_first()[i],
            #[trigger] b.drop_first()[j],
        ) by {
            assert(lex_le(b[i + 1], b[j + 1]));
        }
        lemma_sorted_unique(a.drop_first(), b.drop_first());
        assert(a =~= seq![a[0]] + a.drop_first());
        assert(b =~= seq![b[0]] + b.drop_first());
    }
}

/// Whether `a` comes before `b`, or equals it, as `String`s compare.
pub fn str_lex_le(a: &str, b: &str) -> (r: bool)
    ensures
        r == lex_le(a@, b@),
{
    let la = a.unicode_len();
    let lb = b.unicode_len();
    let mut i: usize = 0;
    while i < la && i < lb
        invariant
            la == a@.len(),
            lb == b@.len(),
            i <= la,
            i <= lb,
            a@.take(i as int) == b@.take(i as int),
        decreases la - i,
    {
        let ca = a.get_char(i);
        let cb = b.get_char(i);
        if (ca as u32) != (cb as u32) {
            proof {
                lemma_lex_skip(a@, b@, i as int);
                assert(a@.skip(i as int)[0] == ca);
                assert(b@.skip(i as int)[0] == cb);
            }
            return (ca as u32) < (cb as u32);
        }
        proof {
            assert(ca == cb);
            assert(a@.take(i + 1) =~= a@.take(i as int).push(ca));
            assert(b@.take(i + 1) =~= b@.take(i as int).push(cb));
        }
        i = i + 1;
    }
    proof {
        lemma_lex_skip(a@, b@, i as int);
    }
    i == la
}

/// Insert `x` into the sorted `r`, keeping it sorted.
fn insert_sorted(r: &mut Vec<String>, x: String)
    requires
        lex_sorted(views(old(r)@)),
    ensures
        lex_sorted(views(final(r)@)),
        views(final(r)@).to_multiset() == views(old(r)@).to_multiset().insert(x@),
{
    let ghost s = views(r@);
    let mut p: usize = 0;
    while p < r.len()
        invariant
            s == views(r@),
            lex_sorted(s),
            p <= r.len(),
            forall|i: int| 0 <= i < p ==> lex_le(#[trigger] s[i], x@),
        ensures
            s == views(r@),
            p <= r.len(),
            forall|i: int| 0 <= i < p ==> lex_le(#[trigger] s[i], x@),
            p == r.len() || !lex_le(s[p as int], x@),
        decreases r.len() - p,
    {
        if !str_lex_le(r[p].as_str(), x.as_str()) {
            break;
        }
        p = p + 1;
    }
    proof {
        assert forall|j: int| p <= j < s.len() implies lex_le(x@, #[trigger] s[j]) by {
            assert(!lex_le(s[p as int], x@));
            lemma_lex_total(s[p as int], x@);
            if j > p {
                lemma_lex_transitive(x@, s[p as int], s[j]);
            }
        }
    }
    let ghost xv = x@;
    r.insert(p, x);
    proof {
        let t = views(r@);
        assert(t =~= s.insert(p as int, xv));
        assert forall|i: int, j: int| 0 <= i < j < t.len() implies lex_le(
            #[trigger] t[i],
            #[trigger] t[j],
        ) by {
            if j < p {
            } else if j == p {
            } else if i < p {
                lemma_lex_transitive(s[i], xv, s[j - 1]);
            } else if i == p {
            } else {
            }
        }
    }
}

/// Sort `v` in the order in which `String`s compare.
pub fn sort_strings(v: Vec<String>) -> (r: Vec<String>)
    ensures
        lex_sorted(views(r@)),
        views(r@).to_multiset() == views(v@).to_multiset(),
{
    let mut v = v;
    let ghost orig = views(v@);
    let mut r: Vec<String> = Vec::new();
    while v.len() > 0
        invariant
            lex_sorted(views(r@)),
            views(r@).to_multiset().add(views(v@).to_multiset()) == orig.to_multiset(),
        decreases v.len(),
    {
        let ghost before = views(v@);
        let x = v.pop().unwrap();
        proof {
            assert(before =~= views(v@).push(x@));
        }
        insert_sorted(&mut r, x);
        proof {
            broadcast use vstd::multiset::group_multiset_axioms;
            assert(views(r@).to_multiset().add(views(v@).to_multiset()) =~= orig.to_multiset());
        }
    }
    proof {
        broadcast use vstd::multiset::group_multiset_axioms;
        assert(views(v@) =~= Seq::<Seq<char>>::empty());
        assert(views(r@).to_multiset() =~= orig.to_multiset());
    }
    r
}

} // verus!

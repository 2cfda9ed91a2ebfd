//! Sorting names in the order of `str`.
use crate::text::strs_view;
use crate::value_map::{lemma_lex_lt_asymmetric, lemma_lex_lt_irreflexive, lemma_lex_lt_total, lemma_lex_lt_transitive, lex_lt, str_lt};
use vstd::prelude::*;
use vstd::relations::{sorted_by, total_ordering};

verus! {

/// The order of `str`, not strict: `a` does not sort after `b`.
pub open spec fn str_order() -> spec_fn(Seq<char>, Seq<char>) -> bool {
    |a: Seq<char>, b: Seq<char>| !lex_lt(b, a)
}

/// The order of `str` is a total order.
pub proof fn lemma_str_order_total()
    ensures
        total_ordering(str_order()),
{
    let leq = str_order();
    assert forall|x: Seq<char>| #[trigger] leq(x, x) by {
        lemma_lex_lt_irreflexive(x);
    }
    assert forall|x: Seq<char>, y: Seq<char>| #[trigger] leq(x, y) && #[trigger] leq(y, x) implies x == y by {
        if x != y {
            lemma_lex_lt_total(x, y);
        }
    }
    assert forall|x: Seq<char>, y: Seq<char>, z: Seq<char>| #[trigger] leq(x, y) && #[trigger] leq(y, z) implies leq(x, z) by {
        if lex_lt(z, x) {
            if x == y {
            } else {
                lemma_lex_lt_total(x, y);
                lemma_lex_lt_transitive(z, x, y);
            }
        }
    }
    assert forall|x: Seq<char>, y: Seq<char>| #[trigger] leq(x, y) || #[trigger] leq(y, x) by {
        if lex_lt(y, x) {
            lemma_lex_lt_asymmetric(y, x);
        }
    }
}

/// Inserting `x` at `p` keeps a sorted list sorted, where everything before
/// `p` is at most `x` and everything from `p` on is after it.
proof fn lemma_insert_sorted(s: Seq<Seq<char>>, p: int, x: Seq<char>)
    requires
        sorted_by(s, str_order()),
        0 <= p <= s.len(),
        forall|i: int| 0 <= i < p ==> !lex_lt(x, #[trigger] s[i]),
        forall|i: int| p <= i < s.len() ==> lex_lt(x, #[trigger] s[i]),
    ensures
        sorted_by(s.insert(p, x), str_order()),
{
    lemma_str_order_total();
    let leq = str_order();
    let t = s.insert(p, x);
    assert forall|i: int, j: int| 0 <= i < j < t.len() implies #[trigger] leq(t[i], t[j]) by {
        if i < p && j < p {
            assert(t[i] == s[i] && t[j] == s[j]);
        } else if i < p && j == p {
            assert(t[i] == s[i]);
        } else if i < p && j > p {
            assert(t[i] == s[i] && t[j] == s[j - 1]);
        } else if i == p {
            assert(t[j] == s[j - 1]);
            lemma_lex_lt_asymmetric(x, s[j - 1]);
        } else {
            assert(t[i] == s[i - 1] && t[j] == s[j - 1]);
        }
    }
}

/// The names sorted in the order of `str` (`slice::sort` on strings).
pub fn sort_strings(v: &Vec<String>) -> (r: Vec<String>)
    ensures
        strs_view(r@) == strs_view(v@).sort_by(str_order()),
{
    let ghost vv = strs_view(v@);
    let mut r: Vec<String> = Vec::new();
    let mut i: usize = 0;
    assert(strs_view(r@) =~= Seq::<Seq<char>>::empty());
    assert(vv.take(0) =~= Seq::<Seq<char>>::empty());
    while i < v.len()
        invariant
            i <= v@.len(),
            vv == strs_view(v@),
            sorted_by(strs_view(r@), str_order()),
            strs_view(r@).to_multiset() == vv.take(i as int).to_multiset(),
        decreases v.len() - i,
    {
        let ghost rv = strs_view(r@);
        let mut p: usize = 0;
        while p < r.len() && !str_lt(v[i].as_str(), r[p].as_str())
            invariant
                p <= r@.len(),
                i < v@.len(),
                vv == strs_view(v@),
                rv == strs_view(r@),
                sorted_by(rv, str_order()),
                forall|k: int| 0 <= k < p ==> !lex_lt(vv[i as int], #[trigger] rv[k]),
            decreases r.len() - p,
        {
            assert(rv[p as int] == r@[p as int]@);
            p += 1;
        }
        proof {
            lemma_str_order_total();
            assert(vv[i as int] == v@[i as int]@);
            if p < r@.len() {
                assert(rv[p as int] == r@[p as int]@);
                assert forall|k: int| p <= k < rv.len() implies lex_lt(vv[i as int], #[trigger] rv[k]) by {
                    if k > p {
                        assert(str_order()(rv[p as int], rv[k]));
                        if rv[p as int] == rv[k] {
                        } else {
                            lemma_lex_lt_total(rv[p as int], rv[k]);
                            lemma_lex_lt_transitive(vv[i as int], rv[p as int], rv[k]);
                        }
                    }
                }
            }
            lemma_insert_sorted(rv, p as int, vv[i as int]);
            vstd::seq_lib::to_multiset_insert(rv, p as int, vv[i as int]);
            vstd::seq_lib::to_multiset_build(vv.take(i as int), vv[i as int]);
            assert(vv.take(i + 1) =~= vv.take(i as int).push(vv[i as int]));
        }
        r.insert(p, v[i].clone());
        assert(strs_view(r@) =~= rv.insert(p as int, vv[i as int]));
        i += 1;
    }
    proof {
        assert(vv.take(v@.len() as int) =~= vv);
        lemma_str_order_total();
        vv.lemma_sort_by_ensures(str_order());
        vstd::seq_lib::lemma_sorted_unique(strs_view(r@), vv.sort_by(str_order()), str_order());
    }
    r
}

} // verus!

//! The template repository as read from disk: bundles in name order, each
//! with its templates in order of output name, then source path.
use crate::bundle::{TemplateBundle, TemplateRepository, TemplateVariant};
use crate::text::str_eq;
use crate::value_map::{
    lemma_lex_lt_asymmetric, lemma_lex_lt_irreflexive, lemma_lex_lt_total, lemma_lex_lt_transitive, lex_lt, str_lt,
};
use vstd::multiset::Multiset;
use vstd::prelude::*;

verus! {

/// A template sorts strictly before another: by output name, then by source
/// path.
pub open spec fn variant_before(a: TemplateVariant, b: TemplateVariant) -> bool {
    lex_lt(a.output_name@, b.output_name@) || (a.output_name@ == b.output_name@ && lex_lt(a.source_path@, b.source_path@))
}

/// Templates in order: none sorts strictly before an earlier one.
pub open spec fn variants_sorted(s: Seq<TemplateVariant>) -> bool {
    forall|i: int, j: int| 0 <= i < j < s.len() ==> !variant_before(#[trigger] s[j], #[trigger] s[i])
}

/// Bundles in order of name.
pub open spec fn bundles_sorted(s: Seq<TemplateBundle>) -> bool {
    forall|i: int, j: int| 0 <= i < j < s.len() ==> !lex_lt((#[trigger] s[j]).name@, (#[trigger] s[i]).name@)
}

proof fn lemma_before_asymmetric(a: TemplateVariant, b: TemplateVariant)
    requires
        variant_before(a, b),
    ensures
        !variant_before(b, a),
{
    if lex_lt(a.output_name@, b.output_name@) {
        lemma_lex_lt_asymmetric(a.output_name@, b.output_name@);
    } else {
        lemma_lex_lt_irreflexive(a.output_name@);
        lemma_lex_lt_asymmetric(a.source_path@, b.source_path@);
    }
}

proof fn lemma_before_transitive(a: TemplateVariant, b: TemplateVariant, c: TemplateVariant)
    requires
        variant_before(a, b),
        variant_before(b, c),
    ensures
        variant_before(a, c),
{
    if lex_lt(a.output_name@, b.output_name@) && lex_lt(b.output_name@, c.output_name@) {
        lemma_lex_lt_transitive(a.output_name@, b.output_name@, c.output_name@);
    } else if !lex_lt(a.output_name@, b.output_name@) && !lex_lt(b.output_name@, c.output_name@) {
        lemma_lex_lt_transitive(a.source_path@, b.source_path@, c.source_path@);
    }
}

proof fn lemma_before_total(a: TemplateVariant, b: TemplateVariant)
    requires
        !variant_before(b, a),
    ensures
        variant_before(a, b) || (a.output_name@ == b.output_name@ && a.source_path@ == b.source_path@),
{
    if a.output_name@ != b.output_name@ {
        lemma_lex_lt_total(a.output_name@, b.output_name@);
    } else if a.source_path@ != b.source_path@ {
        lemma_lex_lt_total(a.source_path@, b.source_path@);
    }
}

/// Whether `a` sorts strictly before `b` (see [`variant_before`]).
fn variant_lt(a: &TemplateVariant, b: &TemplateVariant) -> (r: bool)
    ensures
        r == variant_before(*a, *b),
{
    str_lt(a.output_name.as_str(), b.output_name.as_str())
        || (str_eq(a.output_name.as_str(), b.output_name.as_str()) && str_lt(a.source_path.as_str(), b.source_path.as_str()))
}

/// The templates of a bundle in order: sorted by output name, then source
/// path, every template kept.
pub fn sort_variants(v: Vec<TemplateVariant>) -> (r: Vec<TemplateVariant>)
    ensures
        variants_sorted(r@),
        r@.to_multiset() == v@.to_multiset(),
{
    broadcast use vstd::multiset::group_multiset_axioms;

    let ghost whole = v@;
    let mut src = v;
    let mut r: Vec<TemplateVariant> = Vec::new();
    assert(r@.to_multiset() =~= Multiset::<TemplateVariant>::empty()) by {
        vstd::seq_lib::to_multiset_len(r@);
    }
    while src.len() > 0
        invariant
            variants_sorted(r@),
            r@.to_multiset().add(src@.to_multiset()) == whole.to_multiset(),
        decreases src.len(),
    {
        let ghost before_src = src@;
        let x = src.remove(0);
        proof {
            assert(x == before_src[0]);
            vstd::seq_lib::to_multiset_remove(before_src, 0);
            vstd::seq_lib::to_multiset_contains(before_src, x);
            assert(before_src.contains(x)) by {
                assert(before_src[0] == x);
            }
        }
        let mut p: usize = 0;
        while p < r.len() && !variant_lt(&x, &r[p])
            invariant
                p <= r@.len(),
                variants_sorted(r@),
                forall|k: int| 0 <= k < p ==> !variant_before(x, #[trigger] r@[k]),
            decreases r.len() - p,
        {
            p += 1;
        }
        let ghost rv = r@;
        proof {
            assert forall|k: int| p <= k < rv.len() implies variant_before(x, #[trigger] rv[k]) by {
                if k > p {
                    lemma_before_total(rv[p as int], rv[k]);
                    if variant_before(rv[p as int], rv[k]) {
                        lemma_before_transitive(x, rv[p as int], rv[k]);
                    }
                }
            }
            assert forall|i: int, j: int| 0 <= i < j < rv.len() + 1 implies !variant_before(
                #[trigger] rv.insert(p as int, x)[j], #[trigger] rv.insert(p as int, x)[i]) by {
                let t = rv.insert(p as int, x);
                if i < p && j == p {
                } else if i == p {
                    assert(t[j] == rv[j - 1]);
                    lemma_before_asymmetric(x, rv[j - 1]);
                } else if i < p {
                    assert(t[i] == rv[i]);
                    if j < p {
                        assert(t[j] == rv[j]);
                    } else {
                        assert(t[j] == rv[j - 1]);
                    }
                } else {
                    assert(t[i] == rv[i - 1] && t[j] == rv[j - 1]);
                }
            }
            vstd::seq_lib::to_multiset_insert(rv, p as int, x);
        }
        r.insert(p, x);
        assert(r@.to_multiset().add(src@.to_multiset()) =~= whole.to_multiset());
    }
    assert(src@.to_multiset() =~= Multiset::<TemplateVariant>::empty()) by {
        vstd::seq_lib::to_multiset_len(src@);
    }
    assert(r@.to_multiset() =~= whole.to_multiset());
    r
}

/// The bundles in order of name, every bundle kept.
pub fn sort_bundles(v: Vec<TemplateBundle>) -> (r: Vec<TemplateBundle>)
    ensures
        bundles_sorted(r@),
        r@.to_multiset() == v@.to_multiset(),
{
    broadcast use vstd::multiset::group_multiset_axioms;

    let ghost whole = v@;
    let mut src = v;
    let mut r: Vec<TemplateBundle> = Vec::new();
    assert(r@.to_multiset() =~= Multiset::<TemplateBundle>::empty()) by {
        vstd::seq_lib::to_multiset_len(r@);
    }
    while src.len() > 0
        invariant
            bundles_sorted(r@),
            r@.to_multiset().add(src@.to_multiset()) == whole.to_multiset(),
        decreases src.len(),
    {
        let ghost before_src = src@;
        let x = src.remove(0);
        proof {
            assert(x == before_src[0]);
            vstd::seq_lib::to_multiset_remove(before_src, 0);
            vstd::seq_lib::to_multiset_contains(before_src, x);
            assert(before_src.contains(x)) by {
                assert(before_src[0] == x);
            }
        }
        let mut p: usize = 0;
        while p < r.len() && !str_lt(x.name.as_str(), r[p].name.as_str())
            invariant
                p <= r@.len(),
                bundles_sorted(r@),
                forall|k: int| 0 <= k < p ==> !lex_lt(x.name@, (#[trigger] r@[k]).name@),
            decreases r.len() - p,
        {
            p += 1;
        }
        let ghost rv = r@;
        proof {
            assert forall|k: int| p <= k < rv.len() implies lex_lt(x.name@, (#[trigger] rv[k]).name@) by {
                if k > p && rv[p as int].name@ != rv[k].name@ {
                    lemma_lex_lt_total(rv[p as int].name@, rv[k].name@);
                    lemma_lex_lt_transitive(x.name@, rv[p as int].name@, rv[k].name@);
                }
            }
            assert forall|i: int, j: int| 0 <= i < j < rv.len() + 1 implies !lex_lt(
                (#[trigger] rv.insert(p as int, x)[j]).name@, (#[trigger] rv.insert(p as int, x)[i]).name@) by {
                let t = rv.insert(p as int, x);
                if i < p && j == p {
                } else if i == p {
                    assert(t[j] == rv[j - 1]);
                    lemma_lex_lt_asymmetric(x.name@, rv[j - 1].name@);
                } else if i < p {
                    assert(t[i] == rv[i]);
                    if j < p {
                        assert(t[j] == rv[j]);
                    } else {
                        assert(t[j] == rv[j - 1]);
                    }
                } else {
                    assert(t[i] == rv[i - 1] && t[j] == rv[j - 1]);
                }
            }
            vstd::seq_lib::to_multiset_insert(rv, p as int, x);
        }
        r.insert(p, x);
        assert(r@.to_multiset().add(src@.to_multiset()) =~= whole.to_multiset());
    }
    assert(src@.to_multiset() =~= Multiset::<TemplateBundle>::empty()) by {
        vstd::seq_lib::to_multiset_len(src@);
    }
    assert(r@.to_multiset() =~= whole.to_multiset());
    r
}

/// Two lists with the same elements still have the same elements once each is
/// mapped.
pub proof fn lemma_map_to_multiset<A, B>(s1: Seq<A>, s2: Seq<A>, f: spec_fn(A) -> B)
    requires
        s1.to_multiset() == s2.to_multiset(),
    ensures
        s1.map_values(f).to_multiset() == s2.map_values(f).to_multiset(),
    decreases s1.len(),
{
    broadcast use vstd::multiset::group_multiset_axioms;

    vstd::seq_lib::to_multiset_len(s1);
    vstd::seq_lib::to_multiset_len(s2);
    if s1.len() == 0 {
        assert(s1.map_values(f) =~= Seq::<B>::empty());
        assert(s2.map_values(f) =~= Seq::<B>::empty());
    } else {
        let x = s1.last();
        let rest1 = s1.drop_last();
        assert(s1 =~= rest1.push(x));
        vstd::seq_lib::to_multiset_build(rest1, x);
        vstd::seq_lib::to_multiset_contains(s2, x);
        assert(s2.to_multiset().count(x) > 0);
        let i = choose|i: int| 0 <= i < s2.len() && s2[i] == x;
        let rest2 = s2.remove(i);
        vstd::seq_lib::to_multiset_remove(s2, i);
        assert(rest1.to_multiset() =~= rest2.to_multiset());
        lemma_map_to_multiset(rest1, rest2, f);
        assert(s1.map_values(f) =~= rest1.map_values(f).push(f(x)));
        vstd::seq_lib::to_multiset_build(rest1.map_values(f), f(x));
        assert(s2 =~= rest2.insert(i, x));
        assert(s2.map_values(f) =~= rest2.map_values(f).insert(i, f(x)));
        vstd::seq_lib::to_multiset_insert(rest2.map_values(f), i, f(x));
    }
}

/// What identifies a bundle up to the order of its templates: its name, its
/// directory, and its templates counted without order.
pub open spec fn bundle_key(b: TemplateBundle) -> (Seq<char>, Seq<char>, Multiset<TemplateVariant>) {
    (b.name@, b.source_path@, b.templates@.to_multiset())
}

/// The bundles that have templates, each identified by [`bundle_key`].
pub open spec fn kept_bundles(bs: Seq<TemplateBundle>) -> Seq<(Seq<char>, Seq<char>, Multiset<TemplateVariant>)>
    decreases bs.len(),
{
    if bs.len() == 0 {
        Seq::empty()
    } else {
        let rest = kept_bundles(bs.drop_last());
        if bs.last().templates@.len() > 0 {
            rest.push(bundle_key(bs.last()))
        } else {
            rest
        }
    }
}

/// A bundle as the repository keeps it: templates present and in order.
pub open spec fn bundle_ready(b: TemplateBundle) -> bool {
    b.templates@.len() > 0 && variants_sorted(b.templates@)
}

impl TemplateRepository {
    /// The repository of the bundles read from disk: bundles without
    /// templates are dropped, the templates of each are put in order, and
    /// the bundles in order of name.
    pub fn from_bundles(bundles: Vec<TemplateBundle>) -> (r: TemplateRepository)
        ensures
            bundles_sorted(r.bundles@),
            forall|i: int| 0 <= i < r.bundles@.len() ==> bundle_ready(#[trigger] r.bundles@[i]),
            r.bundles@.map_values(|b: TemplateBundle| bundle_key(b)).to_multiset() == kept_bundles(bundles@).to_multiset(),
    {
        let ghost whole = bundles@;
        let mut src = bundles;
        let mut out: Vec<TemplateBundle> = Vec::new();
        assert(whole.take(0) =~= Seq::<TemplateBundle>::empty());
        assert(whole.skip(0) =~= whole);
        assert(out@.map_values(|b: TemplateBundle| bundle_key(b)) =~= kept_bundles(whole.take(0)));
        while src.len() > 0
            invariant
                src@.len() <= whole.len(),
                src@ == whole.skip(whole.len() - src@.len()),
                out@.map_values(|b: TemplateBundle| bundle_key(b)) == kept_bundles(whole.take(whole.len() - src@.len())),
                forall|i: int| 0 <= i < out@.len() ==> bundle_ready(#[trigger] out@[i]),
            decreases src.len(),
        {
            let ghost done = (whole.len() - src@.len()) as int;
            let ghost before_src = src@;
            let b = src.remove(0);
            assert(b == whole[done]);
            assert(src@ =~= whole.skip(done + 1));
            assert(whole.take(done + 1).drop_last() =~= whole.take(done));
            assert(whole.take(done + 1).last() == b);
            let TemplateBundle { name, source_path, templates } = b;
            let sorted = sort_variants(templates);
            proof {
                vstd::seq_lib::to_multiset_len(sorted@);
                vstd::seq_lib::to_multiset_len(whole[done].templates@);
            }
            if sorted.len() > 0 {
                let nb = TemplateBundle { name, source_path, templates: sorted };
                let ghost before = out@;
                assert(bundle_key(nb) == bundle_key(whole[done]));
                out.push(nb);
                assert(out@.map_values(|b: TemplateBundle| bundle_key(b)) =~= before.map_values(|b: TemplateBundle| bundle_key(b)).push(bundle_key(nb)));
            }
        }
        assert(whole.take(whole.len() as int) =~= whole);
        let ghost pre = out@;
        let sorted_bundles = sort_bundles(out);
        proof {
            lemma_map_to_multiset(sorted_bundles@, pre, |b: TemplateBundle| bundle_key(b));
            assert forall|i: int| 0 <= i < sorted_bundles@.len() implies bundle_ready(#[trigger] sorted_bundles@[i]) by {
                let b = sorted_bundles@[i];
                vstd::seq_lib::to_multiset_contains(sorted_bundles@, b);
                vstd::seq_lib::to_multiset_contains(pre, b);
                assert(sorted_bundles@.contains(b));
                let j = choose|j: int| 0 <= j < pre.len() && pre[j] == b;
                assert(bundle_ready(pre[j]));
            }
        }
        TemplateRepository { bundles: sorted_bundles }
    }
}

} // verus!

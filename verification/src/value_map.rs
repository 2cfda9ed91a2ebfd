//! Placeholder values: a map from names to values that keeps its names in
//! ascending order, as `BTreeMap<String, String>` does.
use crate::text::{str_eq, strs_view};
use vstd::prelude::*;

verus! {

/// `a` sorts before `b`: the first differing character is smaller, or `a` is a
/// proper prefix of `b` (the order of `str`).
pub open spec fn lex_lt(a: Seq<char>, b: Seq<char>) -> bool
    decreases a.len(),
{
    if a.len() == 0 {
        b.len() > 0
    } else if b.len() == 0 {
        false
    } else if a[0] != b[0] {
        a[0] < b[0]
    } else {
        lex_lt(a.drop_first(), b.drop_first())
    }
}

pub proof fn lemma_lex_lt_irreflexive(a: Seq<char>)
    ensures
        !lex_lt(a, a),
    decreases a.len(),
{
    if a.len() > 0 {
        lemma_lex_lt_irreflexive(a.drop_first());
    }
}

pub proof fn lemma_lex_lt_transitive(a: Seq<char>, b: Seq<char>, c: Seq<char>)
    requires
        lex_lt(a, b),
        lex_lt(b, c),
    ensures
        lex_lt(a, c),
    decreases a.len(),
{
    if a.len() > 0 && b.len() > 0 && c.len() > 0 && a[0] == b[0] && b[0] == c[0] {
        lemma_lex_lt_transitive(a.drop_first(), b.drop_first(), c.drop_first());
    }
}

pub proof fn lemma_lex_lt_total(a: Seq<char>, b: Seq<char>)
    requires
        a != b,
    ensures
        lex_lt(a, b) || lex_lt(b, a),
    decreases a.len(),
{
    if a.len() > 0 && b.len() > 0 && a[0] == b[0] {
        if a.drop_first() == b.drop_first() {
            assert(a =~= seq![a[0]] + a.drop_first());
            assert(b =~= seq![b[0]] + b.drop_first());
        }
        lemma_lex_lt_total(a.drop_first(), b.drop_first());
    } else if a.len() == 0 && b.len() == 0 {
        assert(a =~= b);
    }
}

pub proof fn lemma_lex_lt_asymmetric(a: Seq<char>, b: Seq<char>)
    requires
        lex_lt(a, b),
    ensures
        !lex_lt(b, a),
    decreases a.len(),
{
    if a.len() > 0 && b.len() > 0 && a[0] == b[0] {
        lemma_lex_lt_asymmetric(a.drop_first(), b.drop_first());
    }
}

/// Whether `a` sorts before `b` (see [`lex_lt`]).
pub fn str_lt(a: &str, b: &str) -> (r: bool)
    ensures
        r == lex_lt(a@, b@),
{
    let av = crate::text::to_chars(a);
    let bv = crate::text::to_chars(b);
    let mut i: usize = 0;
    assert(av@.skip(0) =~= av@);
    assert(bv@.skip(0) =~= bv@);
    while i < av.len() && i < bv.len() && av[i] == bv[i]
        invariant
            i <= av.len(),
            i <= bv.len(),
            av@ == a@,
            bv@ == b@,
            lex_lt(a@, b@) == lex_lt(av@.skip(i as int), bv@.skip(i as int)),
        decreases av.len() - i,
    {
        assert(av@.skip(i as int).drop_first() =~= av@.skip(i + 1));
        assert(bv@.skip(i as int).drop_first() =~= bv@.skip(i + 1));
        i += 1;
    }
    if i == av.len() {
        i < bv.len()
    } else if i == bv.len() {
        false
    } else {
        av[i] < bv[i]
    }
}

/// Entries whose names strictly ascend.
pub open spec fn pairs_sorted<V>(ps: Seq<(Seq<char>, V)>) -> bool {
    forall|i: int, j: int| 0 <= i < j < ps.len() ==> lex_lt(#[trigger] ps[i].0, #[trigger] ps[j].0)
}

/// Some entry carries the name `k`.
pub open spec fn has_key<V>(ps: Seq<(Seq<char>, V)>, k: Seq<char>) -> bool {
    exists|i: int| 0 <= i < ps.len() && #[trigger] ps[i].0 == k
}

/// The position of an entry named `k`.
pub open spec fn key_index<V>(ps: Seq<(Seq<char>, V)>, k: Seq<char>) -> int {
    choose|i: int| 0 <= i < ps.len() && #[trigger] ps[i].0 == k
}

/// The map that a list of entries with distinct names describes.
pub open spec fn pairs_map<V>(ps: Seq<(Seq<char>, V)>) -> Map<Seq<char>, V> {
    Map::new(|k: Seq<char>| has_key(ps, k), |k: Seq<char>| ps[key_index(ps, k)].1)
}

/// In sorted entries a name occurs once, so its entry is the one found.
pub proof fn lemma_sorted_index<V>(ps: Seq<(Seq<char>, V)>, i: int)
    requires
        pairs_sorted(ps),
        0 <= i < ps.len(),
    ensures
        has_key(ps, ps[i].0),
        key_index(ps, ps[i].0) == i,
        pairs_map(ps).contains_key(ps[i].0),
        pairs_map(ps)[ps[i].0] == ps[i].1,
{
    let k = ps[i].0;
    assert(ps[i].0 == k);
    let j = key_index(ps, k);
    if j != i {
        if i < j {
            assert(lex_lt(ps[i].0, ps[j].0));
        } else {
            assert(lex_lt(ps[j].0, ps[i].0));
        }
        lemma_lex_lt_irreflexive(k);
    }
}

/// Replacing the value of an existing name.
pub proof fn lemma_update_entry<V>(ps: Seq<(Seq<char>, V)>, p: int, v: V)
    requires
        pairs_sorted(ps),
        0 <= p < ps.len(),
    ensures
        pairs_sorted(ps.update(p, (ps[p].0, v))),
        pairs_map(ps.update(p, (ps[p].0, v))) == pairs_map(ps).insert(ps[p].0, v),
{
    let k = ps[p].0;
    let ns = ps.update(p, (k, v));
    assert(pairs_sorted(ns)) by {
        assert forall|i: int, j: int| 0 <= i < j < ns.len() implies lex_lt(#[trigger] ns[i].0, #[trigger] ns[j].0) by {
            assert(ns[i].0 == ps[i].0 && ns[j].0 == ps[j].0);
        }
    }
    let m = pairs_map(ps).insert(k, v);
    assert forall|q: Seq<char>| #[trigger] pairs_map(ns).contains_key(q) <==> m.contains_key(q) by {
        if has_key(ns, q) {
            let i = key_index(ns, q);
            assert(ps[i].0 == q);
        }
        if has_key(ps, q) {
            let i = key_index(ps, q);
            assert(ns[i].0 == q);
        }
        if q == k {
            assert(ns[p].0 == q);
        }
    }
    assert forall|q: Seq<char>| #[trigger] pairs_map(ns).contains_key(q) implies pairs_map(ns)[q] == m[q] by {
        let i = key_index(ns, q);
        lemma_sorted_index(ns, i);
        lemma_sorted_index(ns, p);
        if q != k {
            assert(i != p);
            assert(ps[i].0 == q);
            lemma_sorted_index(ps, i);
        }
    }
    assert(pairs_map(ns) =~= m);
}

/// Inserting a new name at its place in the order.
pub proof fn lemma_insert_entry<V>(ps: Seq<(Seq<char>, V)>, p: int, k: Seq<char>, v: V)
    requires
        pairs_sorted(ps),
        0 <= p <= ps.len(),
        forall|j: int| 0 <= j < p ==> lex_lt(#[trigger] ps[j].0, k),
        forall|j: int| p <= j < ps.len() ==> lex_lt(k, #[trigger] ps[j].0),
    ensures
        pairs_sorted(ps.insert(p, (k, v))),
        pairs_map(ps.insert(p, (k, v))) == pairs_map(ps).insert(k, v),
{
    let ns = ps.insert(p, (k, v));
    assert(pairs_sorted(ns)) by {
        assert forall|i: int, j: int| 0 <= i < j < ns.len() implies lex_lt(#[trigger] ns[i].0, #[trigger] ns[j].0) by {
            if j < p {
                assert(ns[i] == ps[i] && ns[j] == ps[j]);
            } else if j == p {
                assert(ns[i] == ps[i]);
            } else if i < p {
                assert(ns[i] == ps[i] && ns[j] == ps[j - 1]);
                lemma_lex_lt_transitive(ps[i].0, k, ps[j - 1].0);
            } else if i == p {
                assert(ns[j] == ps[j - 1]);
            } else {
                assert(ns[i] == ps[i - 1] && ns[j] == ps[j - 1]);
            }
        }
    }
    let m = pairs_map(ps).insert(k, v);
    assert forall|q: Seq<char>| #[trigger] pairs_map(ns).contains_key(q) <==> m.contains_key(q) by {
        if has_key(ns, q) {
            let i = key_index(ns, q);
            if i < p {
                assert(ps[i].0 == q);
            } else if i > p {
                assert(ps[i - 1].0 == q);
            }
        }
        if has_key(ps, q) {
            let i = key_index(ps, q);
            if i < p {
                assert(ns[i].0 == q);
            } else {
                assert(ns[i + 1].0 == q);
            }
        }
        if q == k {
            assert(ns[p].0 == q);
        }
    }
    assert forall|q: Seq<char>| #[trigger] pairs_map(ns).contains_key(q) implies pairs_map(ns)[q] == m[q] by {
        let i = key_index(ns, q);
        lemma_sorted_index(ns, i);
        if i < p {
            assert(ns[i] == ps[i]);
            lemma_sorted_index(ps, i);
            lemma_lex_lt_irreflexive(k);
        } else if i > p {
            assert(ns[i] == ps[i - 1]);
            lemma_sorted_index(ps, i - 1);
            lemma_lex_lt_irreflexive(k);
        }
    }
    assert(pairs_map(ns) =~= m);
}


/// Removing the entry at `p`.
pub proof fn lemma_remove_entry<V>(ps: Seq<(Seq<char>, V)>, p: int)
    requires
        pairs_sorted(ps),
        0 <= p < ps.len(),
    ensures
        pairs_sorted(ps.remove(p)),
        pairs_map(ps.remove(p)) == pairs_map(ps).remove(ps[p].0),
{
    let k = ps[p].0;
    let ns = ps.remove(p);
    assert(pairs_sorted(ns)) by {
        assert forall|i: int, j: int| 0 <= i < j < ns.len() implies lex_lt(#[trigger] ns[i].0, #[trigger] ns[j].0) by {
            if j < p {
                assert(ns[i] == ps[i] && ns[j] == ps[j]);
            } else if i < p {
                assert(ns[i] == ps[i] && ns[j] == ps[j + 1]);
            } else {
                assert(ns[i] == ps[i + 1] && ns[j] == ps[j + 1]);
            }
        }
    }
    let m = pairs_map(ps).remove(k);
    assert forall|q: Seq<char>| #[trigger] pairs_map(ns).contains_key(q) <==> m.contains_key(q) by {
        if has_key(ns, q) {
            let i = key_index(ns, q);
            if i < p {
                assert(ps[i].0 == q);
                lemma_sorted_index(ps, i);
            } else {
                assert(ps[i + 1].0 == q);
                lemma_sorted_index(ps, i + 1);
            }
            lemma_sorted_index(ps, p);
        }
        if has_key(ps, q) && q != k {
            let i = key_index(ps, q);
            if i < p {
                assert(ns[i].0 == q);
            } else if i > p {
                assert(ns[i - 1].0 == q);
            } else {
                assert(ps[p].0 == q);
            }
        }
    }
    assert forall|q: Seq<char>| #[trigger] pairs_map(ns).contains_key(q) implies pairs_map(ns)[q] == m[q] by {
        let i = key_index(ns, q);
        lemma_sorted_index(ns, i);
        if i < p {
            assert(ns[i] == ps[i]);
            lemma_sorted_index(ps, i);
        } else {
            assert(ns[i] == ps[i + 1]);
            lemma_sorted_index(ps, i + 1);
        }
    }
    assert(pairs_map(ns) =~= m);
}

/// A map from names to values, names kept in ascending order.
pub struct ValueMap {
    entries: Vec<(String, String)>,
}

impl ValueMap {
    #[verifier::type_invariant]
    spec fn sorted(&self) -> bool {
        pairs_sorted(self.pairs())
    }

    /// The entries as text, in ascending order of name.
    pub closed spec fn pairs(&self) -> Seq<(Seq<char>, Seq<char>)> {
        self.entries@.map_values(|e: (String, String)| (e.0@, e.1@))
    }

    /// The map as a mathematical map.
    pub open spec fn view(&self) -> Map<Seq<char>, Seq<char>> {
        pairs_map(self.pairs())
    }

    /// The names in ascending order.
    pub open spec fn names(&self) -> Seq<Seq<char>> {
        self.pairs().map_values(|p: (Seq<char>, Seq<char>)| p.0)
    }

    /// An empty map.
    pub fn new() -> (m: Self)
        ensures
            m@ == Map::<Seq<char>, Seq<char>>::empty(),
            m.pairs().len() == 0,
    {
        let m = ValueMap { entries: Vec::new() };
        assert(m@ =~= Map::<Seq<char>, Seq<char>>::empty());
        m
    }

    /// A copy with the same entries.
    pub fn copy(&self) -> (r: Self)
        ensures
            r@ == self@,
            r.pairs() == self.pairs(),
    {
        proof {
            use_type_invariant(self);
        }
        let mut entries: Vec<(String, String)> = Vec::new();
        let mut i: usize = 0;
        while i < self.entries.len()
            invariant
                i <= self.entries@.len(),
                entries@.len() == i,
                forall|j: int| 0 <= j < i ==> (#[trigger] entries@[j]).0@ == self.entries@[j].0@
                    && entries@[j].1@ == self.entries@[j].1@,
            decreases self.entries.len() - i,
        {
            entries.push((self.entries[i].0.clone(), self.entries[i].1.clone()));
            i += 1;
        }
        let ghost ps = entries@.map_values(|e: (String, String)| (e.0@, e.1@));
        assert(ps =~= self.pairs());
        ValueMap { entries }
    }

    /// The names, in ascending order.
    pub fn names_in_order(&self) -> (r: Vec<String>)
        ensures
            strs_view(r@) == self.names(),
            forall|i: int, j: int| 0 <= i < j < r@.len() ==> lex_lt(#[trigger] r@[i]@, #[trigger] r@[j]@),
            forall|k: Seq<char>| self@.contains_key(k) <==> strs_view(r@).contains(k),
    {
        proof {
            use_type_invariant(self);
        }
        let mut r: Vec<String> = Vec::new();
        let mut i: usize = 0;
        while i < self.entries.len()
            invariant
                i <= self.entries@.len(),
                r@.len() == i,
                self.pairs().len() == self.entries@.len(),
                forall|j: int| 0 <= j < i ==> (#[trigger] r@[j])@ == self.pairs()[j].0,
            decreases self.entries.len() - i,
        {
            assert(self.pairs()[i as int].0 == self.entries@[i as int].0@);
            r.push(self.entries[i].0.clone());
            i += 1;
        }
        assert(strs_view(r@) =~= self.names());
        proof {
            assert forall|k: Seq<char>| self@.contains_key(k) <==> strs_view(r@).contains(k) by {
                if self@.contains_key(k) {
                    let j = key_index(self.pairs(), k);
                    assert(strs_view(r@)[j] == k);
                }
                if strs_view(r@).contains(k) {
                    let j = choose|j: int| 0 <= j < strs_view(r@).len() && strs_view(r@)[j] == k;
                    assert(self.pairs()[j].0 == k);
                }
            }
        }
        r
    }

    /// The number of names.
    pub fn len(&self) -> (n: usize)
        ensures
            n == self.pairs().len(),
            n == self@.len(),
    {
        proof {
            use_type_invariant(self);
            lemma_map_len(self.pairs());
        }
        self.entries.len()
    }

    /// The `i`-th entry in ascending order of name.
    pub fn entry(&self, i: usize) -> (r: (&String, &String))
        requires
            i < self.pairs().len(),
        ensures
            (r.0@, r.1@) == self.pairs()[i as int],
    {
        (&self.entries[i].0, &self.entries[i].1)
    }

    /// The value stored under `key`.
    pub fn get(&self, key: &str) -> (r: Option<&String>)
        ensures
            match r {
                Some(v) => self@.contains_key(key@) && v@ == self@[key@],
                None => !self@.contains_key(key@),
            },
    {
        proof {
            use_type_invariant(self);
        }
        let mut i: usize = 0;
        while i < self.entries.len()
            invariant
                i <= self.entries@.len(),
                self.pairs().len() == self.entries@.len(),
                pairs_sorted(self.pairs()),
                forall|j: int| 0 <= j < i ==> (#[trigger] self.pairs()[j]).0 != key@,
            decreases self.entries.len() - i,
        {
            assert(self.pairs()[i as int] == (self.entries@[i as int].0@, self.entries@[i as int].1@));
            if str_eq(self.entries[i].0.as_str(), key) {
                proof {
                    lemma_sorted_index(self.pairs(), i as int);
                }
                return Some(&self.entries[i].1);
            }
            i += 1;
        }
        proof {
            if has_key(self.pairs(), key@) {
                let j = key_index(self.pairs(), key@);
                assert(self.pairs()[j].0 == key@);
            }
        }
        None
    }

    /// Whether `key` has a value.
    pub fn contains_key(&self, key: &str) -> (r: bool)
        ensures
            r == self@.contains_key(key@),
    {
        self.get(key).is_some()
    }

    /// Stores `value` under `key`, replacing any earlier value.
    pub fn insert(&mut self, key: String, value: String)
        ensures
            final(self)@ == old(self)@.insert(key@, value@),
    {
        proof {
            use_type_invariant(&*self);
        }
        let ghost ps = self.pairs();
        let mut p: usize = 0;
        while p < self.entries.len() && str_lt(self.entries[p].0.as_str(), key.as_str())
            invariant
                p <= self.entries@.len(),
                self.entries@.len() == ps.len(),
                ps == self.pairs(),
                pairs_sorted(ps),
                forall|j: int| 0 <= j < p ==> lex_lt(#[trigger] ps[j].0, key@),
            decreases self.entries.len() - p,
        {
            assert(ps[p as int].0 == self.entries@[p as int].0@);
            p += 1;
        }
        let ghost kv = key@;
        let ghost vv = value@;
        let mut entries = Vec::new();
        std::mem::swap(&mut entries, &mut self.entries);
        assert(entries@.map_values(|e: (String, String)| (e.0@, e.1@)) == ps);
        if p < entries.len() && str_eq(entries[p].0.as_str(), key.as_str()) {
            proof {
                assert(ps[p as int].0 == kv);
                lemma_update_entry(ps, p as int, vv);
            }
            entries.set(p, (key, value));
            assert(entries@.map_values(|e: (String, String)| (e.0@, e.1@)) =~= ps.update(p as int, (kv, vv)));
            self.entries = entries;
        } else {
            proof {
                if p < ps.len() {
                    assert(ps[p as int].0 == entries@[p as int].0@);
                    assert(!lex_lt(ps[p as int].0, kv));
                    lemma_lex_lt_total(ps[p as int].0, kv);
                    assert forall|j: int| p <= j < ps.len() implies lex_lt(kv, #[trigger] ps[j].0) by {
                        if j > p {
                            lemma_lex_lt_transitive(kv, ps[p as int].0, ps[j].0);
                        }
                    }
                }
                lemma_insert_entry(ps, p as int, kv, vv);
            }
            entries.insert(p, (key, value));
            assert(entries@.map_values(|e: (String, String)| (e.0@, e.1@)) =~= ps.insert(p as int, (kv, vv)));
            self.entries = entries;
        }
    }
}

/// The map of sorted entries has one name per entry.
proof fn lemma_map_len<V>(ps: Seq<(Seq<char>, V)>)
    requires
        pairs_sorted(ps),
    ensures
        pairs_map(ps).dom().finite(),
        pairs_map(ps).len() == ps.len(),
    decreases ps.len(),
{
    if ps.len() == 0 {
        assert(pairs_map(ps).dom() =~= Set::empty());
    } else {
        let init = ps.drop_last();
        let last = ps.last();
        assert(pairs_sorted(init)) by {
            assert forall|i: int, j: int| 0 <= i < j < init.len() implies lex_lt(#[trigger] init[i].0, #[trigger] init[j].0) by {
                assert(init[i] == ps[i] && init[j] == ps[j]);
            }
        }
        lemma_map_len(init);
        assert forall|j: int| 0 <= j < init.len() implies lex_lt(#[trigger] init[j].0, last.0) by {
            assert(init[j] == ps[j]);
        }
        lemma_insert_entry(init, init.len() as int, last.0, last.1);
        assert(init.insert(init.len() as int, last) =~= ps);
        if has_key(init, last.0) {
            let i = key_index(init, last.0);
            assert(init[i] == ps[i]);
            lemma_lex_lt_irreflexive(last.0);
        }
    }
}

/// What a read gives back of a write: after a value is stored under a name,
/// looking the name up gives that value, every other name keeps its value,
/// and storing it again changes nothing.
pub proof fn law_insert_then_get(before: Map<Seq<char>, Seq<char>>, key: Seq<char>, value: Seq<char>, other: Seq<char>)
    requires
        other != key,
    ensures
        before.insert(key, value).contains_key(key),
        before.insert(key, value)[key] == value,
        before.insert(key, value).contains_key(other) == before.contains_key(other),
        before.contains_key(other) ==> before.insert(key, value)[other] == before[other],
        before.insert(key, value).insert(key, value) == before.insert(key, value),
{
    assert(before.insert(key, value).insert(key, value) =~= before.insert(key, value));
}

} // verus!

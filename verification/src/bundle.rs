//! Template bundles: the template files of one directory, the text values that
//! the user gives them, and the prepared templates that carry those values.
use crate::templates::{
    ai_fragments_of, ai_fragments_spec, ai_frags_view, frags_view, AiFragment, AiPlaceholder, FragmentView,
    TemplateFragment, TextPlaceholder,
};
use crate::paths::{camino_file_name, camino_join, path_file_name, path_join};
use crate::text::{join, join_strings, push_str, str_eq, strs_view};
use crate::value_map::lex_lt;
use crate::value_map::ValueMap;
use vstd::prelude::*;

verus! {

/// One template file of a bundle.
pub struct TemplateVariant {
    pub output_name: String,
    pub source_path: String,
    pub fragments: Vec<TemplateFragment>,
}

/// The templates of one bundle directory, sorted by output name.
pub struct TemplateBundle {
    pub name: String,
    pub source_path: String,
    pub templates: Vec<TemplateVariant>,
}

/// A template whose text values are known.
pub struct PreparedTemplate {
    pub output_name: String,
    pub source_path: String,
    pub fragments: Vec<TemplateFragment>,
    pub values: ValueMap,
}

/// A bundle whose text values are known.
pub struct PreparedBundle {
    pub name: String,
    pub source_path: String,
    pub templates: Vec<PreparedTemplate>,
    pub values: ValueMap,
}

/// Why a prompter gave no value.
pub struct PromptError {
    pub message: String,
}

/// Supplies the value of a text placeholder.
pub trait Prompter {
    /// Resolves a value for the provided placeholder.
    fn prompt(&mut self, placeholder: &TextPlaceholder) -> Result<String, PromptError>;
}

/// A prompter that answers from a fixed map, with an empty answer for a name it
/// does not know.
pub struct StaticPrompter {
    pub answers: ValueMap,
}

impl StaticPrompter {
    pub fn new(answers: ValueMap) -> (p: Self)
        ensures
            p.answers@ == answers@,
    {
        StaticPrompter { answers }
    }

    /// The answer for `name`.
    pub fn answer(&self, name: &str) -> (r: String)
        ensures
            r@ == (if self.answers@.contains_key(name@) {
                self.answers@[name@]
            } else {
                Seq::<char>::empty()
            }),
    {
        match self.answers.get(name) {
            Some(v) => v.clone(),
            None => String::new(),
        }
    }
}

impl Prompter for StaticPrompter {
    /// Answers with the value given for the placeholder's name, or an empty
    /// value for a name it was not given; it never fails and keeps its answers.
    fn prompt(&mut self, placeholder: &TextPlaceholder) -> (r: Result<String, PromptError>)
        ensures
            final(self).answers@ == old(self).answers@,
            r matches Ok(s) && s@ == (if old(self).answers@.contains_key(placeholder.name@) {
                old(self).answers@[placeholder.name@]
            } else {
                Seq::<char>::empty()
            }),
    {
        Ok(self.answer(placeholder.name.as_str()))
    }
}

/// A text placeholder as its name and prompt.
pub open spec fn tp_view(p: TextPlaceholder) -> (Seq<char>, Seq<char>) {
    (p.name@, p.prompt@)
}

pub open spec fn tps_view(v: Seq<TextPlaceholder>) -> Seq<(Seq<char>, Seq<char>)> {
    v.map_values(|p: TextPlaceholder| tp_view(p))
}

/// The text placeholders of a fragment list, in order.
pub open spec fn text_of(fs: Seq<FragmentView>) -> Seq<(Seq<char>, Seq<char>)>
    decreases fs.len(),
{
    if fs.len() == 0 {
        Seq::empty()
    } else {
        let rest = text_of(fs.drop_last());
        match fs.last() {
            FragmentView::Text(n, p) => rest.push((n, p)),
            _ => rest,
        }
    }
}

/// The text placeholders of several fragment lists, one list after another.
pub open spec fn texts_of(ts: Seq<Seq<FragmentView>>) -> Seq<(Seq<char>, Seq<char>)>
    decreases ts.len(),
{
    if ts.len() == 0 {
        Seq::empty()
    } else {
        texts_of(ts.drop_last()) + text_of(ts.last())
    }
}

/// The names of placeholders.
pub open spec fn names_of(ps: Seq<(Seq<char>, Seq<char>)>) -> Seq<Seq<char>> {
    ps.map_values(|p: (Seq<char>, Seq<char>)| p.0)
}

/// The placeholders that need an answer: the first placeholder of each name
/// that has no seed value, in order.
pub open spec fn pending_fold(ps: Seq<(Seq<char>, Seq<char>)>, seeds: Set<Seq<char>>) -> Seq<(Seq<char>, Seq<char>)>
    decreases ps.len(),
{
    if ps.len() == 0 {
        Seq::empty()
    } else {
        let prev = pending_fold(ps.drop_last(), seeds);
        let p = ps.last();
        if seeds.contains(p.0) || names_of(prev).contains(p.0) {
            prev
        } else {
            prev.push(p)
        }
    }
}

/// The fragment lists of a bundle's templates.
pub open spec fn variant_frags(ts: Seq<TemplateVariant>) -> Seq<Seq<FragmentView>> {
    ts.map_values(|t: TemplateVariant| frags_view(t.fragments@))
}

/// Every placeholder name is asked for once at most: pending names are distinct,
/// none has a seed value, and each placeholder name is seeded or pending.
pub proof fn law_each_name_prompted_once(ps: Seq<(Seq<char>, Seq<char>)>, seeds: Set<Seq<char>>)
    ensures
        forall|i: int, j: int| 0 <= i < j < pending_fold(ps, seeds).len()
            ==> (#[trigger] pending_fold(ps, seeds)[i]).0 != (#[trigger] pending_fold(ps, seeds)[j]).0,
        forall|i: int| 0 <= i < pending_fold(ps, seeds).len() ==> !seeds.contains(
            (#[trigger] pending_fold(ps, seeds)[i]).0,
        ),
        forall|i: int| 0 <= i < ps.len() ==> seeds.contains((#[trigger] ps[i]).0) || names_of(
            pending_fold(ps, seeds),
        ).contains(ps[i].0),
        forall|i: int| 0 <= i < pending_fold(ps, seeds).len() ==> ps.contains(
            #[trigger] pending_fold(ps, seeds)[i],
        ),
    decreases ps.len(),
{
    if ps.len() > 0 {
        let init = ps.drop_last();
        law_each_name_prompted_once(init, seeds);
        let prev = pending_fold(init, seeds);
        let p = ps.last();
        let cur = pending_fold(ps, seeds);
        assert forall|i: int| 0 <= i < ps.len() implies seeds.contains((#[trigger] ps[i]).0) || names_of(
            cur,
        ).contains(ps[i].0) by {
            if i < ps.len() - 1 {
                assert(ps[i] == init[i]);
                if !seeds.contains(ps[i].0) {
                    let k = choose|k: int| 0 <= k < names_of(prev).len() && names_of(prev)[k] == ps[i].0;
                    if !(seeds.contains(p.0) || names_of(prev).contains(p.0)) {
                        assert(names_of(cur)[k] == ps[i].0);
                    }
                }
            } else {
                if !seeds.contains(p.0) && !names_of(prev).contains(p.0) {
                    assert(names_of(cur)[prev.len() as int] == p.0);
                }
            }
        }
        assert forall|i: int| 0 <= i < cur.len() implies ps.contains(#[trigger] cur[i]) by {
            if i < prev.len() {
                assert(cur[i] == prev[i]);
                let k = choose|k: int| 0 <= k < init.len() && init[k] == prev[i];
                assert(ps[k] == init[k]);
            } else {
                assert(ps[ps.len() - 1] == p);
            }
        }
        if !(seeds.contains(p.0) || names_of(prev).contains(p.0)) {
            assert forall|i: int, j: int| 0 <= i < j < cur.len() implies (#[trigger] cur[i]).0 != (
            #[trigger] cur[j]).0 by {
                if j == prev.len() {
                    assert(names_of(prev)[i] == prev[i].0);
                }
            }
        }
    }
}

/// A copy of a fragment.
pub fn copy_fragment(f: &TemplateFragment) -> (r: TemplateFragment)
    ensures
        r == *f,
{
    match f {
        TemplateFragment::Literal(t) => TemplateFragment::Literal(t.clone()),
        TemplateFragment::Text(p) => TemplateFragment::Text(
            TextPlaceholder { name: p.name.clone(), prompt: p.prompt.clone() },
        ),
        TemplateFragment::Expression(e) => TemplateFragment::Expression(e.clone()),
        TemplateFragment::Ai(p) => TemplateFragment::Ai(
            crate::templates::AiPlaceholder { index: p.index, prompt: p.prompt.clone() },
        ),
    }
}

/// A copy of a fragment list.
pub fn copy_fragments(v: &Vec<TemplateFragment>) -> (r: Vec<TemplateFragment>)
    ensures
        r@ == v@,
{
    let mut r: Vec<TemplateFragment> = Vec::new();
    let mut i: usize = 0;
    while i < v.len()
        invariant
            i <= v@.len(),
            r@ == v@.take(i as int),
        decreases v.len() - i,
    {
        r.push(copy_fragment(&v[i]));
        assert(r@ =~= v@.take(i + 1));
        i += 1;
    }
    assert(v@.take(v@.len() as int) =~= v@);
    r
}

/// The text placeholders of a fragment list (see [`text_of`]).
fn push_text_placeholders(out: &mut Vec<TextPlaceholder>, fragments: &Vec<TemplateFragment>)
    ensures
        tps_view(final(out)@) == tps_view(old(out)@) + text_of(frags_view(fragments@)),
{
    let ghost start = tps_view(out@);
    let ghost fs = frags_view(fragments@);
    let mut i: usize = 0;
    assert(fs.take(0) =~= Seq::<FragmentView>::empty());
    assert(start + text_of(fs.take(0)) =~= start);
    while i < fragments.len()
        invariant
            i <= fragments@.len(),
            fs == frags_view(fragments@),
            tps_view(out@) == start + text_of(fs.take(i as int)),
        decreases fragments.len() - i,
    {
        assert(fs.take(i + 1).drop_last() =~= fs.take(i as int));
        assert(fs.take(i + 1).last() == fragments@[i as int].view());
        match &fragments[i] {
            TemplateFragment::Text(p) => {
                let ghost before = out@;
                out.push(TextPlaceholder { name: p.name.clone(), prompt: p.prompt.clone() });
                assert(tps_view(out@) =~= tps_view(before).push((p.name@, p.prompt@)));
                assert(tps_view(out@) =~= start + text_of(fs.take(i + 1)));
            },
            _ => {},
        }
        i += 1;
    }
    assert(fs.take(fragments.len() as int) =~= fs);
}

impl TemplateVariant {
    /// The text placeholders of this template, in order.
    pub fn text_placeholders(&self) -> (r: Vec<TextPlaceholder>)
        ensures
            tps_view(r@) == text_of(frags_view(self.fragments@)),
    {
        let mut r: Vec<TextPlaceholder> = Vec::new();
        assert(tps_view(r@) =~= Seq::<(Seq<char>, Seq<char>)>::empty());
        push_text_placeholders(&mut r, &self.fragments);
        assert(tps_view(r@) =~= text_of(frags_view(self.fragments@)));
        r
    }
}

impl TemplateBundle {
    /// The text placeholders of all templates, template after template.
    pub fn text_placeholders(&self) -> (r: Vec<TextPlaceholder>)
        ensures
            tps_view(r@) == texts_of(variant_frags(self.templates@)),
    {
        let ghost ts = variant_frags(self.templates@);
        let mut r: Vec<TextPlaceholder> = Vec::new();
        let mut i: usize = 0;
        assert(tps_view(r@) =~= texts_of(ts.take(0)));
        while i < self.templates.len()
            invariant
                i <= self.templates@.len(),
                ts == variant_frags(self.templates@),
                tps_view(r@) == texts_of(ts.take(i as int)),
            decreases self.templates.len() - i,
        {
            assert(ts.take(i + 1).drop_last() =~= ts.take(i as int));
            assert(ts.take(i + 1).last() == frags_view(self.templates@[i as int].fragments@));
            push_text_placeholders(&mut r, &self.templates[i].fragments);
            i += 1;
        }
        assert(ts.take(self.templates.len() as int) =~= ts);
        r
    }

    /// The placeholders that preparing with `seeds` asks the prompter for.
    pub open spec fn pending(&self, seeds: Map<Seq<char>, Seq<char>>) -> Seq<(Seq<char>, Seq<char>)> {
        pending_fold(texts_of(variant_frags(self.templates@)), seeds.dom())
    }

    /// The placeholders to ask for: the first of each name without a seed value.
    pub fn pending_prompts(&self, seeds: &ValueMap) -> (r: Vec<TextPlaceholder>)
        ensures
            tps_view(r@) == self.pending(seeds@),
    {
        let all = self.text_placeholders();
        let ghost ps = tps_view(all@);
        let mut seen = ValueMap::new();
        let mut r: Vec<TextPlaceholder> = Vec::new();
        let mut i: usize = 0;
        assert(tps_view(r@) =~= pending_fold(ps.take(0), seeds@.dom()));
        while i < all.len()
            invariant
                i <= all@.len(),
                ps == tps_view(all@),
                tps_view(r@) == pending_fold(ps.take(i as int), seeds@.dom()),
                forall|k: Seq<char>| seen@.contains_key(k) <==> names_of(tps_view(r@)).contains(k),
            decreases all.len() - i,
        {
            let ghost prev = tps_view(r@);
            assert(ps.take(i + 1).drop_last() =~= ps.take(i as int));
            assert(ps.take(i + 1).last() == tp_view(all@[i as int]));
            let name = all[i].name.as_str();
            if !seeds.contains_key(name) && !seen.contains_key(name) {
                seen.insert(all[i].name.clone(), String::new());
                r.push(TextPlaceholder { name: all[i].name.clone(), prompt: all[i].prompt.clone() });
                assert(tps_view(r@) =~= prev.push(tp_view(all@[i as int])));
                assert forall|k: Seq<char>| seen@.contains_key(k) <==> names_of(tps_view(r@)).contains(k) by {
                    assert(names_of(tps_view(r@)) =~= names_of(prev).push(all@[i as int].name@));
                    if names_of(prev).contains(k) {
                        let j = choose|j: int| 0 <= j < names_of(prev).len() && names_of(prev)[j] == k;
                        assert(names_of(tps_view(r@))[j] == k);
                    }
                    if k == all@[i as int].name@ {
                        assert(names_of(tps_view(r@))[prev.len() as int] == k);
                    }
                    if names_of(tps_view(r@)).contains(k) && k != all@[i as int].name@ {
                        let j = choose|j: int| 0 <= j < names_of(tps_view(r@)).len() && names_of(tps_view(r@))[j] == k;
                        assert(names_of(prev)[j] == k);
                    }
                }
            }
            i += 1;
        }
        assert(ps.take(all.len() as int) =~= ps);
        r
    }
}


/// A prepared template is `t` with the values `values`.
pub open spec fn template_prepared_from(p: PreparedTemplate, t: TemplateVariant, values: Map<Seq<char>, Seq<char>>) -> bool {
    &&& p.output_name@ == t.output_name@
    &&& p.source_path@ == t.source_path@
    &&& p.fragments@ == t.fragments@
    &&& p.values@ == values
}

/// `b` is `bundle` prepared from the seed values `seeds`: every template keeps
/// its files and fragments and carries the bundle's values; those values are the
/// seeds and one answer for each pending placeholder name.
pub open spec fn prepared_matches(bundle: TemplateBundle, seeds: Map<Seq<char>, Seq<char>>, b: PreparedBundle) -> bool {
    &&& b.name@ == bundle.name@
    &&& b.source_path@ == bundle.source_path@
    &&& b.templates@.len() == bundle.templates@.len()
    &&& forall|i: int| 0 <= i < b.templates@.len() ==> template_prepared_from(
        #[trigger] b.templates@[i],
        bundle.templates@[i],
        b.values@,
    )
    &&& forall|k: Seq<char>| #[trigger] b.values@.contains_key(k) <==> (seeds.contains_key(k) || names_of(
        bundle.pending(seeds),
    ).contains(k))
    &&& forall|k: Seq<char>| #[trigger] seeds.contains_key(k) ==> b.values@[k] == seeds[k]
}

/// What a static prompter with the answers `answers` gives for `name`: the
/// answer for it, or empty.
pub open spec fn static_answer(answers: Map<Seq<char>, Seq<char>>, name: Seq<char>) -> Seq<char> {
    if answers.contains_key(name) {
        answers[name]
    } else {
        Seq::empty()
    }
}

/// A static prompter's answers to the placeholders, in order.
pub open spec fn static_answers(answers: Map<Seq<char>, Seq<char>>, ps: Seq<(Seq<char>, Seq<char>)>) -> Seq<Seq<char>> {
    ps.map_values(|p: (Seq<char>, Seq<char>)| static_answer(answers, p.0))
}

/// `values` gives the i-th pending placeholder's name the i-th answer, with one
/// answer for each pending placeholder.
pub open spec fn answers_given(
    pending: Seq<(Seq<char>, Seq<char>)>,
    answers: Seq<Seq<char>>,
    values: Map<Seq<char>, Seq<char>>,
) -> bool {
    &&& answers.len() == pending.len()
    &&& forall|i: int| 0 <= i < pending.len() ==> values[(#[trigger] pending[i]).0] == answers[i]
}

impl TemplateBundle {
    /// Prepares the bundle from seed values and the answers to its pending
    /// placeholders (see [`TemplateBundle::pending_prompts`]), one answer per
    /// placeholder, in the same order.
    pub fn prepare_with_answers(&self, seed_values: ValueMap, answers: Vec<String>) -> (r: PreparedBundle)
        requires
            answers@.len() == self.pending(seed_values@).len(),
        ensures
            prepared_matches(*self, seed_values@, r),
            answers_given(self.pending(seed_values@), strs_view(answers@), r.values@),
    {
        let ghost seeds = seed_values@;
        let pending = self.pending_prompts(&seed_values);
        proof {
            law_each_name_prompted_once(texts_of(variant_frags(self.templates@)), seeds.dom());
        }
        let ghost pv = tps_view(pending@);
        let mut values = seed_values;
        let mut i: usize = 0;
        while i < pending.len()
            invariant
                i <= pending@.len(),
                pv == tps_view(pending@),
                pv == self.pending(seeds),
                answers@.len() == pv.len(),
                seeds == seed_values@,
                forall|a: int, b: int| 0 <= a < b < pv.len() ==> (#[trigger] pv[a]).0 != (#[trigger] pv[b]).0,
                forall|a: int| 0 <= a < pv.len() ==> !seeds.dom().contains((#[trigger] pv[a]).0),
                forall|k: Seq<char>| #[trigger] values@.contains_key(k) <==> (seeds.contains_key(k) || names_of(
                    pv.take(i as int),
                ).contains(k)),
                forall|k: Seq<char>| #[trigger] seeds.contains_key(k) ==> values@[k] == seeds[k],
                forall|a: int| 0 <= a < i ==> values@[(#[trigger] pv[a]).0] == answers@[a]@,
            decreases pending.len() - i,
        {
            let ghost before = values@;
            let ghost name = pending@[i as int].name@;
            assert(pv[i as int].0 == name);
            values.insert(pending[i].name.clone(), answers[i].clone());
            let ghost nxt = names_of(pv.take(i + 1));
            let ghost cur = names_of(pv.take(i as int));
            assert(nxt =~= cur.push(name));
            assert(pv.take(i + 1) =~= pv.take(i as int).push(pv[i as int]));
            assert forall|k: Seq<char>| #[trigger] values@.contains_key(k) <==> (seeds.contains_key(k) || nxt.contains(k)) by {
                if k == name {
                    assert(nxt[i as int] == k);
                }
                if cur.contains(k) {
                    let j = choose|j: int| 0 <= j < cur.len() && cur[j] == k;
                    assert(nxt[j] == k);
                }
                if nxt.contains(k) && k != name {
                    let j = choose|j: int| 0 <= j < nxt.len() && nxt[j] == k;
                    assert(cur[j] == k);
                }
            }
            assert forall|a: int| 0 <= a < i + 1 implies values@[(#[trigger] pv[a]).0] == answers@[a]@ by {
                if a < i {
                    assert(pv[a].0 != pv[i as int].0);
                }
            }
            i += 1;
        }
        assert(pv.take(pending.len() as int) =~= pv);
        let mut templates: Vec<PreparedTemplate> = Vec::new();
        let mut j: usize = 0;
        while j < self.templates.len()
            invariant
                j <= self.templates@.len(),
                templates@.len() == j,
                forall|a: int| 0 <= a < j ==> template_prepared_from(
                    #[trigger] templates@[a],
                    self.templates@[a],
                    values@,
                ),
            decreases self.templates.len() - j,
        {
            let t = &self.templates[j];
            templates.push(
                PreparedTemplate {
                    output_name: t.output_name.clone(),
                    source_path: t.source_path.clone(),
                    fragments: copy_fragments(&t.fragments),
                    values: values.copy(),
                },
            );
            j += 1;
        }
        PreparedBundle { name: self.name.clone(), source_path: self.source_path.clone(), templates, values }
    }

    /// Prepares the bundle: seed values are kept, and the prompter is asked once
    /// for each pending placeholder (see [`TemplateBundle::pending_prompts`]), in
    /// order; the first refusal is returned. The answers then go to
    /// [`TemplateBundle::prepare_with_answers`]. The prompter is the caller's own
    /// and carries no contract, so what it answered is stated only as some answer
    /// per pending placeholder.
    pub fn prepare_with_values<P: Prompter>(&self, seed_values: ValueMap, prompter: &mut P) -> (r: Result<
        PreparedBundle,
        PromptError,
    >)
        ensures
            match r {
                Ok(b) => {
                    &&& prepared_matches(*self, seed_values@, b)
                    &&& exists|answers: Seq<Seq<char>>| answers_given(self.pending(seed_values@), answers, b.values@)
                },
                Err(_) => true,
            },
            self.pending(seed_values@).len() == 0 ==> r is Ok,
    {
        let pending = self.pending_prompts(&seed_values);
        assert(pending@.len() == tps_view(pending@).len());
        let mut answers: Vec<String> = Vec::new();
        let mut i: usize = 0;
        while i < pending.len()
            invariant
                i <= pending@.len(),
                answers@.len() == i,
                pending@.len() == self.pending(seed_values@).len(),
            decreases pending.len() - i,
        {
            match prompter.prompt(&pending[i]) {
                Ok(a) => answers.push(a),
                Err(e) => {
                    return Err(e);
                },
            }
            i += 1;
        }
        let ghost seeds = seed_values@;
        let b = self.prepare_with_answers(seed_values, answers);
        assert(answers_given(self.pending(seeds), strs_view(answers@), b.values@));
        assert(exists|ans: Seq<Seq<char>>| answers_given(self.pending(seeds), ans, b.values@));
        assert(prepared_matches(*self, seeds, b));
        Ok(b)
    }

    /// Prepares the bundle with a static prompter: as with
    /// [`TemplateBundle::prepare_with_values`], the seeds are kept and the
    /// prompter is asked once for each pending placeholder, in order; each gets
    /// the prompter's answer, its value for the name or empty, and preparing
    /// cannot fail.
    pub fn prepare_with_static_answers(&self, seed_values: ValueMap, prompter: &mut StaticPrompter) -> (b: PreparedBundle)
        ensures
            prepared_matches(*self, seed_values@, b),
            answers_given(
                self.pending(seed_values@),
                static_answers(old(prompter).answers@, self.pending(seed_values@)),
                b.values@,
            ),
            final(prompter).answers@ == old(prompter).answers@,
    {
        let pending = self.pending_prompts(&seed_values);
        let ghost pv = tps_view(pending@);
        let ghost answers_map = prompter.answers@;
        let mut answers: Vec<String> = Vec::new();
        let mut i: usize = 0;
        while i < pending.len()
            invariant
                i <= pending@.len(),
                pv == tps_view(pending@),
                pv == self.pending(seed_values@),
                prompter.answers@ == answers_map,
                answers@.len() == i,
                forall|k: int| 0 <= k < i ==> (#[trigger] answers@[k])@ == static_answer(answers_map, pv[k].0),
            decreases pending.len() - i,
        {
            assert(pv[i as int].0 == pending@[i as int].name@);
            let a = match prompter.prompt(&pending[i]) {
                Ok(a) => a,
                Err(_) => String::new(),
            };
            answers.push(a);
            i += 1;
        }
        let ghost seeds = seed_values@;
        let b = self.prepare_with_answers(seed_values, answers);
        assert(strs_view(answers@) =~= static_answers(answers_map, pv));
        b
    }

    /// Prepares the bundle with no seed values.
    pub fn prepare<P: Prompter>(&self, prompter: &mut P) -> (r: Result<PreparedBundle, PromptError>)
        ensures
            match r {
                Ok(b) => {
                    &&& prepared_matches(*self, Map::empty(), b)
                    &&& exists|answers: Seq<Seq<char>>| answers_given(self.pending(Map::empty()), answers, b.values@)
                },
                Err(_) => true,
            },
            self.pending(Map::empty()).len() == 0 ==> r is Ok,
    {
        self.prepare_with_values(ValueMap::new(), prompter)
    }

    /// Prepares the bundle with caller-provided seed values.
    pub fn prepare_with_seed_values<P: Prompter>(&self, seed_values: ValueMap, prompter: &mut P) -> (r: Result<
        PreparedBundle,
        PromptError,
    >)
        ensures
            match r {
                Ok(b) => {
                    &&& prepared_matches(*self, seed_values@, b)
                    &&& exists|answers: Seq<Seq<char>>| answers_given(self.pending(seed_values@), answers, b.values@)
                },
                Err(_) => true,
            },
            self.pending(seed_values@).len() == 0 ==> r is Ok,
    {
        self.prepare_with_values(seed_values, prompter)
    }
}

impl PreparedBundle {
    /// The prepared templates.
    pub fn templates(&self) -> (r: &Vec<PreparedTemplate>)
        ensures
            r == &self.templates,
    {
        &self.templates
    }

    /// The text values of the bundle.
    pub fn text_values(&self) -> (r: &ValueMap)
        ensures
            r == &self.values,
    {
        &self.values
    }
}


/// The label of one template file: its source file name, and ` -> ` and the
/// output name where they differ.
pub open spec fn file_label(source_name: Option<Seq<char>>, output_name: Seq<char>) -> Seq<char> {
    let s = match source_name {
        Some(n) => n,
        None => output_name,
    };
    if s == output_name {
        s
    } else {
        s + " -> "@ + output_name
    }
}

/// The label of a template file, from the file name of its source path.
pub open spec fn variant_label(t: TemplateVariant) -> Seq<char> {
    file_label(camino_file_name(t.source_path@), t.output_name@)
}

/// The label of a bundle: its name, ` -> `, and its file labels joined by `, `.
pub open spec fn bundle_label(b: TemplateBundle) -> Seq<char> {
    b.name@ + " -> "@ + join(b.templates@.map_values(|t: TemplateVariant| variant_label(t)), ", "@)
}

/// The label of one template file from its source file name (see [`file_label`]).
pub fn file_label_for(source_name: Option<String>, output_name: &str) -> (r: String)
    ensures
        r@ == file_label(
            match source_name {
                Some(n) => Some(n@),
                None => None,
            },
            output_name@,
        ),
{
    let s = match source_name {
        Some(n) => n,
        None => output_name.to_owned(),
    };
    if str_eq(s.as_str(), output_name) {
        s
    } else {
        let mut r = s;
        push_str(&mut r, " -> ");
        push_str(&mut r, output_name);
        r
    }
}

impl TemplateVariant {
    /// The label of this file in a bundle's selection label.
    pub fn selection_file_label(&self) -> (r: String)
        ensures
            r@ == variant_label(*self),
    {
        file_label_for(path_file_name(self.source_path.as_str()), self.output_name.as_str())
    }

    /// The placeholders that preparing this template alone with `seeds` asks for.
    pub open spec fn pending(&self, seeds: Map<Seq<char>, Seq<char>>) -> Seq<(Seq<char>, Seq<char>)> {
        pending_fold(text_of(frags_view(self.fragments@)), seeds.dom())
    }

    /// Prepares this template alone with the seed values `seeds`.
    pub fn prepare_with_seed_values<P: Prompter>(&self, seed_values: ValueMap, prompter: &mut P) -> (r: Result<
        PreparedTemplate,
        PromptError,
    >)
        ensures
            match r {
                Ok(p) => {
                    &&& template_prepared_from(p, *self, p.values@)
                    &&& forall|k: Seq<char>| #[trigger] p.values@.contains_key(k) <==> (seed_values@.contains_key(k)
                        || names_of(self.pending(seed_values@)).contains(k))
                    &&& forall|k: Seq<char>| #[trigger] seed_values@.contains_key(k) ==> p.values@[k]
                        == seed_values@[k]
                    &&& exists|answers: Seq<Seq<char>>| answers_given(self.pending(seed_values@), answers, p.values@)
                },
                Err(_) => true,
            },
            self.pending(seed_values@).len() == 0 ==> r is Ok,
    {
        let single = TemplateVariant {
            output_name: self.output_name.clone(),
            source_path: self.source_path.clone(),
            fragments: copy_fragments(&self.fragments),
        };
        let mut templates: Vec<TemplateVariant> = Vec::new();
        templates.push(single);
        let bundle = TemplateBundle { name: "single".to_owned(), source_path: "/tmp".to_owned(), templates };
        proof {
            let ts = variant_frags(bundle.templates@);
            assert(bundle.templates@[0].fragments@ == self.fragments@);
            assert(ts.len() == 1);
            assert(ts[0] == frags_view(self.fragments@));
            assert(ts.drop_last() =~= Seq::<Seq<FragmentView>>::empty());
            assert(texts_of(ts.drop_last()) == Seq::<(Seq<char>, Seq<char>)>::empty());
            assert(texts_of(ts) =~= text_of(frags_view(self.fragments@)));
        }
        match bundle.prepare_with_values(seed_values, prompter) {
            Ok(b) => {
                let mut b = b;
                assert(template_prepared_from(b.templates@[0], bundle.templates@[0], b.values@));
                assert(bundle.pending(seed_values@) == self.pending(seed_values@));
                let t = b.templates.remove(0);
                Ok(t)
            },
            Err(e) => Err(e),
        }
    }

    /// Prepares this template alone with a static prompter (see
    /// [`TemplateBundle::prepare_with_static_answers`]): the seeds are kept and
    /// each pending name gets the prompter's answer, its value or empty.
    pub fn prepare_with_static_answers(&self, seed_values: ValueMap, prompter: &mut StaticPrompter) -> (p:
        PreparedTemplate)
        ensures
            template_prepared_from(p, *self, p.values@),
            forall|k: Seq<char>| #[trigger] p.values@.contains_key(k) <==> (seed_values@.contains_key(k) || names_of(
                self.pending(seed_values@),
            ).contains(k)),
            forall|k: Seq<char>| #[trigger] seed_values@.contains_key(k) ==> p.values@[k] == seed_values@[k],
            answers_given(
                self.pending(seed_values@),
                static_answers(old(prompter).answers@, self.pending(seed_values@)),
                p.values@,
            ),
            final(prompter).answers@ == old(prompter).answers@,
    {
        let single = TemplateVariant {
            output_name: self.output_name.clone(),
            source_path: self.source_path.clone(),
            fragments: copy_fragments(&self.fragments),
        };
        let mut templates: Vec<TemplateVariant> = Vec::new();
        templates.push(single);
        let bundle = TemplateBundle { name: "single".to_owned(), source_path: "/tmp".to_owned(), templates };
        proof {
            let ts = variant_frags(bundle.templates@);
            assert(bundle.templates@[0].fragments@ == self.fragments@);
            assert(ts.len() == 1);
            assert(ts[0] == frags_view(self.fragments@));
            assert(ts.drop_last() =~= Seq::<Seq<FragmentView>>::empty());
            assert(texts_of(ts.drop_last()) == Seq::<(Seq<char>, Seq<char>)>::empty());
            assert(texts_of(ts) =~= text_of(frags_view(self.fragments@)));
        }
        let mut b = bundle.prepare_with_static_answers(seed_values, prompter);
        assert(template_prepared_from(b.templates@[0], bundle.templates@[0], b.values@));
        assert(bundle.pending(seed_values@) == self.pending(seed_values@));
        b.templates.remove(0)
    }

    /// Prepares this template alone with no seed values.
    pub fn prepare<P: Prompter>(&self, prompter: &mut P) -> (r: Result<PreparedTemplate, PromptError>)
        ensures
            match r {
                Ok(p) => {
                    &&& template_prepared_from(p, *self, p.values@)
                    &&& forall|k: Seq<char>| #[trigger] p.values@.contains_key(k) <==> names_of(
                        self.pending(Map::empty()),
                    ).contains(k)
                    &&& exists|answers: Seq<Seq<char>>| answers_given(self.pending(Map::empty()), answers, p.values@)
                },
                Err(_) => true,
            },
            self.pending(Map::empty()).len() == 0 ==> r is Ok,
    {
        self.prepare_with_seed_values(ValueMap::new(), prompter)
    }

    /// Prepares this template alone with the values built in for the directory
    /// `cwd` (see [`template_builtin_values`]).
    pub fn prepare_for_path<P: Prompter>(&self, cwd: &str, prompter: &mut P) -> (r: Result<
        PreparedTemplate,
        PromptError,
    >)
        ensures
            match r {
                Ok(p) => {
                    &&& template_prepared_from(p, *self, p.values@)
                    &&& p.values@.contains_key("repo_name"@)
                    &&& p.values@["repo_name"@] == builtin_repo_name(cwd@)
                    &&& forall|k: Seq<char>| #[trigger] p.values@.contains_key(k) <==> (k == "repo_name"@
                        || names_of(self.pending(builtin_values_spec(cwd@))).contains(k))
                    &&& exists|answers: Seq<Seq<char>>| answers_given(
                        self.pending(builtin_values_spec(cwd@)),
                        answers,
                        p.values@,
                    )
                },
                Err(_) => true,
            },
            self.pending(builtin_values_spec(cwd@)).len() == 0 ==> r is Ok,
    {
        let seeds = template_builtin_values(cwd);
        let ghost sv = seeds@;
        let r = self.prepare_with_seed_values(seeds, prompter);
        assert(sv.contains_key("repo_name"@));
        r
    }
}

/// The repository name built in for a directory: its file name, else `project`.
pub open spec fn builtin_repo_name(cwd: Seq<char>) -> Seq<char> {
    match camino_file_name(cwd) {
        Some(n) => n,
        None => "project"@,
    }
}

/// The values built in for a directory: `repo_name`.
pub open spec fn builtin_values_spec(cwd: Seq<char>) -> Map<Seq<char>, Seq<char>> {
    Map::<Seq<char>, Seq<char>>::empty().insert("repo_name"@, builtin_repo_name(cwd))
}

/// The values built in for the directory `cwd`: `repo_name`.
pub fn template_builtin_values(cwd: &str) -> (r: ValueMap)
    ensures
        r@ == builtin_values_spec(cwd@),
{
    let name = match path_file_name(cwd) {
        Some(n) => n,
        None => "project".to_owned(),
    };
    let mut r = ValueMap::new();
    r.insert("repo_name".to_owned(), name);
    r
}

impl TemplateBundle {
    /// The label this bundle is chosen by.
    pub fn selection_label(&self) -> (r: String)
        ensures
            r@ == bundle_label(*self),
    {
        let mut files: Vec<String> = Vec::new();
        let mut i: usize = 0;
        while i < self.templates.len()
            invariant
                i <= self.templates@.len(),
                files@.len() == i,
                forall|j: int| 0 <= j < i ==> (#[trigger] files@[j])@ == variant_label(self.templates@[j]),
            decreases self.templates.len() - i,
        {
            files.push(self.templates[i].selection_file_label());
            i += 1;
        }
        assert(strs_view(files@) =~= self.templates@.map_values(|t: TemplateVariant| variant_label(t)));
        let joined = join_strings(&files, ", ");
        let mut r = self.name.clone();
        push_str(&mut r, " -> ");
        push_str(&mut r, joined.as_str());
        r
    }
}

/// The loaded template bundles, sorted by name.
pub struct TemplateRepository {
    pub bundles: Vec<TemplateBundle>,
}

impl TemplateRepository {
    /// The selection labels of the bundles, in order.
    pub fn selection_labels(&self) -> (r: Vec<String>)
        ensures
            strs_view(r@) == self.bundles@.map_values(|b: TemplateBundle| bundle_label(b)),
    {
        let mut r: Vec<String> = Vec::new();
        let mut i: usize = 0;
        while i < self.bundles.len()
            invariant
                i <= self.bundles@.len(),
                r@.len() == i,
                forall|j: int| 0 <= j < i ==> (#[trigger] r@[j])@ == bundle_label(self.bundles@[j]),
            decreases self.bundles.len() - i,
        {
            r.push(self.bundles[i].selection_label());
            i += 1;
        }
        assert(strs_view(r@) =~= self.bundles@.map_values(|b: TemplateBundle| bundle_label(b)));
        r
    }

    /// The first bundle whose selection label is `label`; otherwise the message
    /// `no template bundle found for selection `label``.
    pub fn bundle_by_selection_label(&self, label: &str) -> (r: Result<&TemplateBundle, String>)
        ensures
            match r {
                Ok(b) => exists|i: int| {
                    &&& 0 <= i < self.bundles@.len()
                    &&& self.bundles@[i] == *b
                    &&& bundle_label(self.bundles@[i]) == label@
                    &&& forall|j: int| 0 <= j < i ==> bundle_label(#[trigger] self.bundles@[j]) != label@
                },
                Err(m) => {
                    &&& forall|j: int| 0 <= j < self.bundles@.len() ==> bundle_label(#[trigger] self.bundles@[j]) != label@
                    &&& m@ == "no template bundle found for selection `"@ + label@ + "`"@
                },
            },
    {
        let mut i: usize = 0;
        while i < self.bundles.len()
            invariant
                i <= self.bundles@.len(),
                forall|j: int| 0 <= j < i ==> bundle_label(#[trigger] self.bundles@[j]) != label@,
            decreases self.bundles.len() - i,
        {
            let l = self.bundles[i].selection_label();
            if str_eq(l.as_str(), label) {
                return Ok(&self.bundles[i]);
            }
            i += 1;
        }
        let mut m = "no template bundle found for selection `".to_owned();
        push_str(&mut m, label);
        push_str(&mut m, "`");
        Err(m)
    }

    /// The output file names of all templates, each once, in ascending order.
    pub fn output_names(&self) -> (r: Vec<String>)
        ensures
            forall|i: int, j: int| 0 <= i < j < r@.len() ==> lex_lt(#[trigger] r@[i]@, #[trigger] r@[j]@),
            forall|k: Seq<char>| strs_view(r@).contains(k) <==> exists|b: int, t: int|
                0 <= b < self.bundles@.len() && 0 <= t < self.bundles@[b].templates@.len()
                    && (#[trigger] self.bundles@[b].templates@[t]).output_name@ == k,
    {
        let mut names = ValueMap::new();
        let mut b: usize = 0;
        while b < self.bundles.len()
            invariant
                b <= self.bundles@.len(),
                forall|k: Seq<char>| names@.contains_key(k) <==> exists|x: int, t: int|
                    0 <= x < b && 0 <= t < self.bundles@[x].templates@.len()
                        && (#[trigger] self.bundles@[x].templates@[t]).output_name@ == k,
            decreases self.bundles.len() - b,
        {
            let ts = &self.bundles[b].templates;
            let mut t: usize = 0;
            while t < ts.len()
                invariant
                    b < self.bundles@.len(),
                    ts == &self.bundles@[b as int].templates,
                    t <= ts@.len(),
                    forall|k: Seq<char>| names@.contains_key(k) <==> (exists|x: int, u: int|
                        0 <= x < b && 0 <= u < self.bundles@[x].templates@.len()
                            && (#[trigger] self.bundles@[x].templates@[u]).output_name@ == k) || (exists|u: int|
                        0 <= u < t && (#[trigger] ts@[u]).output_name@ == k),
                decreases ts.len() - t,
            {
                let ghost before = names@;
                names.insert(ts[t].output_name.clone(), String::new());
                assert forall|k: Seq<char>| names@.contains_key(k) <==> (exists|x: int, u: int|
                    0 <= x < b && 0 <= u < self.bundles@[x].templates@.len()
                        && (#[trigger] self.bundles@[x].templates@[u]).output_name@ == k) || (exists|u: int|
                    0 <= u < t + 1 && (#[trigger] ts@[u]).output_name@ == k) by {
                    if k == ts@[t as int].output_name@ {
                        assert(ts@[t as int].output_name@ == k);
                    }
                    if exists|u: int| 0 <= u < t + 1 && (#[trigger] ts@[u]).output_name@ == k {
                        let u = choose|u: int| 0 <= u < t + 1 && (#[trigger] ts@[u]).output_name@ == k;
                        if u < t {
                            assert(ts@[u].output_name@ == k);
                        }
                    }
                }
                t += 1;
            }
            assert forall|k: Seq<char>| names@.contains_key(k) <==> exists|x: int, u: int|
                0 <= x < b + 1 && 0 <= u < self.bundles@[x].templates@.len()
                    && (#[trigger] self.bundles@[x].templates@[u]).output_name@ == k by {
                if exists|u: int| 0 <= u < ts@.len() && (#[trigger] ts@[u]).output_name@ == k {
                    let u = choose|u: int| 0 <= u < ts@.len() && (#[trigger] ts@[u]).output_name@ == k;
                    assert(self.bundles@[b as int].templates@[u].output_name@ == k);
                }
                if exists|x: int, u: int| 0 <= x < b + 1 && 0 <= u < self.bundles@[x].templates@.len()
                    && (#[trigger] self.bundles@[x].templates@[u]).output_name@ == k {
                    let (x, u) = choose|x: int, u: int| 0 <= x < b + 1 && 0 <= u < self.bundles@[x].templates@.len()
                        && (#[trigger] self.bundles@[x].templates@[u]).output_name@ == k;
                    if x == b {
                        assert(ts@[u].output_name@ == k);
                    }
                }
            }
            b += 1;
        }
        names.names_in_order()
    }
}


/// Whether a fragment list holds an AI placeholder.
pub open spec fn has_ai(fs: Seq<TemplateFragment>) -> bool {
    exists|i: int| 0 <= i < fs.len() && #[trigger] fs[i] is Ai
}

/// The index and prompt of each AI fragment.
pub open spec fn ai_placeholders_spec(fs: Seq<crate::templates::AiFragmentView>) -> Seq<(nat, Seq<char>)> {
    fs.map_values(|f: crate::templates::AiFragmentView| (f.index, f.prompt))
}

impl PreparedTemplate {
    /// Whether this template is the README, which takes the README roles.
    pub fn is_readme(&self) -> (r: bool)
        ensures
            r == (self.output_name@ == "README.md"@),
    {
        str_eq(self.output_name.as_str(), "README.md")
    }

    /// Whether an agent must write part of this template.
    pub fn requires_agent(&self) -> (r: bool)
        ensures
            r == has_ai(self.fragments@),
    {
        let mut i: usize = 0;
        while i < self.fragments.len()
            invariant
                i <= self.fragments@.len(),
                forall|j: int| 0 <= j < i ==> !(#[trigger] self.fragments@[j] is Ai),
            decreases self.fragments.len() - i,
        {
            match &self.fragments[i] {
                TemplateFragment::Ai(_) => {
                    return true;
                },
                _ => {},
            }
            i += 1;
        }
        false
    }

    /// The AI fragments with their labels and README roles.
    pub fn ai_fragments(&self) -> (r: Vec<AiFragment>)
        requires
            self.fragments@.len() < usize::MAX,
        ensures
            ai_frags_view(r@) == ai_fragments_spec(frags_view(self.fragments@), self.output_name@ == "README.md"@),
    {
        let readme = self.is_readme();
        ai_fragments_of(&self.fragments, readme)
    }

    /// The AI placeholders, in order.
    pub fn ai_placeholders(&self) -> (r: Vec<AiPlaceholder>)
        requires
            self.fragments@.len() < usize::MAX,
        ensures
            r@.map_values(|p: AiPlaceholder| (p.index as nat, p.prompt@)) == ai_placeholders_spec(
                ai_fragments_spec(frags_view(self.fragments@), self.output_name@ == "README.md"@),
            ),
    {
        let fragments = self.ai_fragments();
        let mut r: Vec<AiPlaceholder> = Vec::new();
        let mut i: usize = 0;
        while i < fragments.len()
            invariant
                i <= fragments@.len(),
                r@.len() == i,
                forall|j: int| 0 <= j < i ==> (#[trigger] r@[j]).index == fragments@[j].placeholder.index
                    && r@[j].prompt@ == fragments@[j].placeholder.prompt@,
            decreases fragments.len() - i,
        {
            r.push(AiPlaceholder { index: fragments[i].placeholder.index, prompt: fragments[i].placeholder.prompt.clone() });
            i += 1;
        }
        assert(r@.map_values(|p: AiPlaceholder| (p.index as nat, p.prompt@)) =~= ai_placeholders_spec(ai_frags_view(fragments@)));
        r
    }

    /// The file this template is written to under `cwd`.
    pub fn target_path(&self, cwd: &str) -> (r: String)
        ensures
            r@ == camino_join(cwd@, self.output_name@),
    {
        path_join(cwd, self.output_name.as_str())
    }
}

impl PreparedBundle {
    /// Whether an agent must write part of any template.
    pub fn requires_agent(&self) -> (r: bool)
        ensures
            r == exists|i: int| 0 <= i < self.templates@.len() && has_ai(#[trigger] self.templates@[i].fragments@),
    {
        let mut i: usize = 0;
        while i < self.templates.len()
            invariant
                i <= self.templates@.len(),
                forall|j: int| 0 <= j < i ==> !has_ai(#[trigger] self.templates@[j].fragments@),
            decreases self.templates.len() - i,
        {
            if self.templates[i].requires_agent() {
                return true;
            }
            i += 1;
        }
        false
    }
}

} // verus!

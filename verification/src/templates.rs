//! Template files: their fragments (literal text, text placeholders, supported
//! expressions, AI placeholders), parsed from the template body.
use crate::text::{
    decimal, decimal_string, lines, lines_of, trim_start_char, ascii_upper, contains_seq, from_chars, has_prefix, is_ascii_alnum, is_ascii_alpha,
    is_whitespace, join, join_strings, push_char, push_str, split_char, split_on,
    string_from_range, strs_view, to_chars, trim, trim_bounds, char_is_whitespace,
};
use vstd::prelude::*;

verus! {

/// The frontmatter of a template file.
#[derive(Debug, Clone, PartialEq, Eq)]
pub struct TemplateMetadata {
    pub filename: String,
}

/// A value the user types in.
#[derive(Debug, Clone, PartialEq, Eq)]
pub struct TextPlaceholder {
    pub name: String,
    pub prompt: String,
}

/// A block an agent writes.
#[derive(Debug, Clone, PartialEq, Eq)]
pub struct AiPlaceholder {
    pub index: usize,
    pub prompt: String,
}

/// One piece of a template.
#[derive(Debug, Clone, PartialEq, Eq)]
pub enum TemplateFragment {
    Literal(String),
    Text(TextPlaceholder),
    Expression(String),
    Ai(AiPlaceholder),
}

/// A fragment as text.
pub enum FragmentView {
    Literal(Seq<char>),
    Text(Seq<char>, Seq<char>),
    Expression(Seq<char>),
    Ai(nat, Seq<char>),
}

impl TemplateFragment {
    pub open spec fn view(&self) -> FragmentView {
        match self {
            TemplateFragment::Literal(t) => FragmentView::Literal(t@),
            TemplateFragment::Text(p) => FragmentView::Text(p.name@, p.prompt@),
            TemplateFragment::Expression(e) => FragmentView::Expression(e@),
            TemplateFragment::Ai(p) => FragmentView::Ai(p.index as nat, p.prompt@),
        }
    }
}

pub open spec fn frags_view(v: Seq<TemplateFragment>) -> Seq<FragmentView> {
    v.map_values(|f: TemplateFragment| f.view())
}

/// A template identifier: an ASCII letter or `_`, then ASCII letters, digits or `_`.
pub open spec fn valid_identifier(s: Seq<char>) -> bool {
    &&& s.len() > 0
    &&& (is_ascii_alpha(s[0]) || s[0] == '_')
    &&& forall|i: int| 1 <= i < s.len() ==> (is_ascii_alnum(#[trigger] s[i]) || s[i] == '_')
}

/// Whether `value` is a template identifier (see [`valid_identifier`]).
pub fn is_valid_identifier(value: &str) -> (r: bool)
    ensures
        r == valid_identifier(value@),
{
    let v = to_chars(value);
    if v.len() == 0 {
        return false;
    }
    let first = v[0];
    if !(('a' <= first && first <= 'z') || ('A' <= first && first <= 'Z') || first == '_') {
        return false;
    }
    let mut i: usize = 1;
    while i < v.len()
        invariant
            1 <= i <= v.len(),
            v@ == value@,
            forall|k: int| 1 <= k < i ==> (is_ascii_alnum(#[trigger] v@[k]) || v@[k] == '_'),
        decreases v.len() - i,
    {
        let c = v[i];
        if !(('a' <= c && c <= 'z') || ('A' <= c && c <= 'Z') || ('0' <= c && c <= '9') || c
            == '_') {
            assert(!(is_ascii_alnum(v@[i as int]) || v@[i as int] == '_'));
            return false;
        }
        i += 1;
    }
    true
}

/// `s` with every whitespace character removed.
pub open spec fn without_whitespace(s: Seq<char>) -> Seq<char>
    decreases s.len(),
{
    if s.len() == 0 {
        Seq::empty()
    } else if is_whitespace(s.last()) {
        without_whitespace(s.drop_last())
    } else {
        without_whitespace(s.drop_last()).push(s.last())
    }
}

/// The supported expressions, written without whitespace.
pub open spec fn tera_expression(s: Seq<char>) -> Option<Seq<char>> {
    let compact = without_whitespace(s);
    if compact == "current_year()"@ {
        Some("current_year()"@)
    } else if compact == "repo_name()"@ {
        Some("repo_name()"@)
    } else {
        None
    }
}

fn chars_equal(a: &Vec<char>, b: &str) -> (r: bool)
    ensures
        r == (a@ == b@),
{
    let bv = to_chars(b);
    if a.len() != bv.len() {
        return false;
    }
    let mut i: usize = 0;
    while i < a.len()
        invariant
            i <= a.len() == bv.len(),
            bv@ == b@,
            forall|k: int| 0 <= k < i ==> a@[k] == bv@[k],
        decreases a.len() - i,
    {
        if a[i] != bv[i] {
            return false;
        }
        i += 1;
    }
    assert(a@ =~= bv@);
    true
}

/// The supported expression that `value` spells, if any (see [`tera_expression`]).
pub fn supported_tera_expression(value: &str) -> (r: Option<String>)
    ensures
        match (r, tera_expression(value@)) {
            (Some(s), Some(t)) => s@ == t,
            (None, None) => true,
            _ => false,
        },
{
    let v = to_chars(value);
    let mut compact: Vec<char> = Vec::new();
    let mut i: usize = 0;
    while i < v.len()
        invariant
            i <= v.len(),
            v@ == value@,
            compact@ == without_whitespace(v@.take(i as int)),
        decreases v.len() - i,
    {
        assert(v@.take(i + 1).drop_last() =~= v@.take(i as int));
        if !char_is_whitespace(v[i]) {
            compact.push(v[i]);
        }
        i += 1;
    }
    assert(v@.take(v.len() as int) =~= v@);
    if chars_equal(&compact, "current_year()") {
        Some("current_year()".to_owned())
    } else if chars_equal(&compact, "repo_name()") {
        Some("repo_name()".to_owned())
    } else {
        None
    }
}

/// A word with its first character in ASCII uppercase.
pub open spec fn capitalize(w: Seq<char>) -> Seq<char> {
    if w.len() == 0 {
        w
    } else {
        seq![ascii_upper(w[0])] + w.skip(1)
    }
}

/// The non-empty pieces, each capitalized.
pub open spec fn capitalized_words(parts: Seq<Seq<char>>) -> Seq<Seq<char>>
    decreases parts.len(),
{
    if parts.len() == 0 {
        Seq::empty()
    } else {
        let r = capitalized_words(parts.drop_last());
        if parts.last().len() > 0 {
            r.push(capitalize(parts.last()))
        } else {
            r
        }
    }
}

/// The prompt shown for a placeholder: its `_`-separated words capitalized, joined by spaces.
pub open spec fn humanize_identifier_spec(s: Seq<char>) -> Seq<char> {
    join(capitalized_words(split_on(s, '_')), " "@)
}

/// The prompt for a placeholder name (see [`humanize_identifier_spec`]).
pub fn humanize_identifier(value: &str) -> (out: String)
    ensures
        out@ == humanize_identifier_spec(value@),
{
    let parts = split_char(value, '_');
    let ghost ps = strs_view(parts@);
    let mut words: Vec<String> = Vec::new();
    let mut i: usize = 0;
    assert(strs_view(words@) =~= Seq::<Seq<char>>::empty());
    while i < parts.len()
        invariant
            i <= parts.len(),
            ps == strs_view(parts@),
            strs_view(words@) == capitalized_words(ps.take(i as int)),
        decreases parts.len() - i,
    {
        assert(ps.take(i + 1).drop_last() =~= ps.take(i as int));
        let w = to_chars(parts[i].as_str());
        assert(w@ == ps[i as int]);
        if w.len() > 0 {
            let mut word = String::new();
            let first = w[0];
            let upper = if 'a' <= first && first <= 'z' {
                let b = (first as u8) - 32;
                assert((first as u8) as u32 == first as u32);
                b as char
            } else {
                first
            };
            push_char(&mut word, upper);
            let rest = string_from_range(&w, 1, w.len());
            push_str(&mut word, rest.as_str());
            assert(word@ =~= capitalize(w@));
            let ghost before = words@;
            let ghost wv = word@;
            words.push(word);
            assert(strs_view(words@) =~= strs_view(before).push(wv));
        }
        i += 1;
    }
    assert(ps.take(parts.len() as int) =~= ps);
    join_strings(&words, " ")
}

/// Whether `s[i]` and `s[i + 1]` are `a` and `b`.
pub open spec fn pair_at(s: Seq<char>, a: char, b: char, i: int) -> bool {
    0 <= i && i + 1 < s.len() && s[i] == a && s[i + 1] == b
}

pub open spec fn is_first_pair(s: Seq<char>, a: char, b: char, i: int) -> bool {
    pair_at(s, a, b, i) && forall|j: int| 0 <= j < i ==> !#[trigger] pair_at(s, a, b, j)
}

/// Where the two-character pattern `ab` first occurs in `s` (`str::find`).
pub open spec fn first_pair(s: Seq<char>, a: char, b: char) -> Option<int> {
    if exists|i: int| is_first_pair(s, a, b, i) {
        Some(choose|i: int| is_first_pair(s, a, b, i))
    } else {
        None
    }
}

pub proof fn lemma_first_pair_bounds(s: Seq<char>, a: char, b: char)
    ensures
        first_pair(s, a, b) matches Some(i) ==> 0 <= i && i + 2 <= s.len(),
{
}

/// Finds `ab` in `v[from..]`, returning its absolute position.
fn find_pair(v: &Vec<char>, from: usize, a: char, b: char) -> (r: Option<usize>)
    requires
        from <= v.len(),
    ensures
        match r {
            Some(i) => from <= i && i + 2 <= v.len() && first_pair(v@.skip(from as int), a, b)
                == Some(i - from),
            None => first_pair(v@.skip(from as int), a, b) is None,
        },
{
    let ghost s = v@.skip(from as int);
    let mut i: usize = from;
    while i < v.len() && v.len() - i >= 2
        invariant
            from <= i <= v.len(),
            s == v@.skip(from as int),
            forall|j: int| 0 <= j < i - from ==> !#[trigger] pair_at(s, a, b, j),
        decreases v.len() - i,
    {
        if v[i] == a && v[i + 1] == b {
            proof {
                assert(pair_at(s, a, b, i - from));
                assert(is_first_pair(s, a, b, i - from));
                let k = choose|k: int| is_first_pair(s, a, b, k);
                if k < i - from {
                    assert(!pair_at(s, a, b, k));
                } else if i - from < k {
                    assert(!pair_at(s, a, b, i - from));
                }
            }
            return Some(i);
        }
        assert(!pair_at(s, a, b, i - from));
        i += 1;
    }
    proof {
        if exists|k: int| is_first_pair(s, a, b, k) {
            let k = choose|k: int| is_first_pair(s, a, b, k);
            assert(pair_at(s, a, b, k));
        }
    }
    None
}

/// Why a template body was refused.
pub enum TemplateFailure {
    Unterminated,
    Multiline,
    EmptyPlaceholder,
    EmptyAiPrompt,
    InvalidPlaceholder(Seq<char>),
}

/// The fragment that a placeholder's trimmed text stands for.
pub open spec fn placeholder_fragment(inner: Seq<char>, ai: nat) -> Result<FragmentView, TemplateFailure> {
    if has_prefix(inner, "ai:"@) {
        let prompt = trim(inner.skip(3));
        if prompt.len() == 0 {
            Err(TemplateFailure::EmptyAiPrompt)
        } else {
            Ok(FragmentView::Ai(ai, prompt))
        }
    } else if valid_identifier(inner) {
        Ok(FragmentView::Text(inner, humanize_identifier_spec(inner)))
    } else {
        match tera_expression(inner) {
            Some(e) => Ok(FragmentView::Expression(e)),
            None => Err(TemplateFailure::InvalidPlaceholder(inner)),
        }
    }
}

/// `acc` before the fragments of `r`, or the failure of `r`.
pub open spec fn prepend(acc: Seq<FragmentView>, r: Result<Seq<FragmentView>, TemplateFailure>) -> Result<
    Seq<FragmentView>,
    TemplateFailure,
> {
    match r {
        Ok(t) => Ok(acc + t),
        Err(f) => Err(f),
    }
}

/// The fragments of a template body: literal text between `{{ .. }}` placeholders,
/// each placeholder on one line and not blank; AI placeholders numbered from `ai`.
pub open spec fn parse_rest(rest: Seq<char>, ai: nat) -> Result<Seq<FragmentView>, TemplateFailure>
    decreases rest.len(),
{
    match first_pair(rest, '{', '{') {
        None => Ok(
            if rest.len() > 0 {
                seq![FragmentView::Literal(rest)]
            } else {
                Seq::empty()
            },
        ),
        Some(s) => {
            let lit = if s > 0 {
                seq![FragmentView::Literal(rest.take(s))]
            } else {
                Seq::empty()
            };
            let after = rest.skip(s + 2);
            match first_pair(after, '}', '}') {
                None => Err(TemplateFailure::Unterminated),
                Some(e) => {
                    let raw = after.take(e);
                    if raw.contains('\n') {
                        Err(TemplateFailure::Multiline)
                    } else if trim(raw).len() == 0 {
                        Err(TemplateFailure::EmptyPlaceholder)
                    } else {
                        match placeholder_fragment(trim(raw), ai) {
                            Err(f) => Err(f),
                            Ok(frag) => {
                                proof {
                                    lemma_first_pair_bounds(rest, '{', '{');
                                    lemma_first_pair_bounds(after, '}', '}');
                                }
                                prepend(
                                    lit.push(frag),
                                    parse_rest(
                                        after.skip(e + 2),
                                        if frag is Ai {
                                            ai + 1
                                        } else {
                                            ai
                                        },
                                    ),
                                )
                            },
                        }
                    }
                },
            }
        },
    }
}

/// The text of the literal fragments, one after another.
pub open spec fn literal_text(fs: Seq<FragmentView>) -> Seq<char>
    decreases fs.len(),
{
    if fs.len() == 0 {
        Seq::empty()
    } else {
        (match fs[0] {
            FragmentView::Literal(t) => t,
            _ => Seq::empty(),
        }) + literal_text(fs.drop_first())
    }
}

/// A body with each `{{ .. }}` span taken out (as far as every `{{` is closed
/// by a later `}}`).
pub open spec fn without_placeholders(rest: Seq<char>) -> Seq<char>
    decreases rest.len(),
{
    match first_pair(rest, '{', '{') {
        None => rest,
        Some(s) => {
            let after = rest.skip(s + 2);
            match first_pair(after, '}', '}') {
                None => rest,
                Some(e) => {
                    proof {
                        lemma_first_pair_bounds(rest, '{', '{');
                        lemma_first_pair_bounds(after, '}', '}');
                    }
                    rest.take(s) + without_placeholders(after.skip(e + 2))
                },
            }
        },
    }
}

/// The AI fragments are numbered `n`, `n + 1`, ... in order.
pub open spec fn ai_numbered_from(fs: Seq<FragmentView>, n: nat) -> bool
    decreases fs.len(),
{
    if fs.len() == 0 {
        true
    } else {
        match fs[0] {
            FragmentView::Ai(i, _) => i == n && ai_numbered_from(fs.drop_first(), n + 1),
            _ => ai_numbered_from(fs.drop_first(), n),
        }
    }
}

/// One fragment as parsing makes it: a literal is not empty, a text name is an
/// identifier, an expression is `current_year()` or `repo_name()`, an AI prompt
/// is not empty.
pub open spec fn fragment_well_formed(f: FragmentView) -> bool {
    match f {
        FragmentView::Literal(t) => t.len() > 0,
        FragmentView::Text(n, _) => valid_identifier(n),
        FragmentView::Expression(e) => e == "current_year()"@ || e == "repo_name()"@,
        FragmentView::Ai(_, p) => p.len() > 0,
    }
}

/// Fragments as parsing makes them: each well formed, and no two literals
/// next to each other.
pub open spec fn fragments_well_formed(fs: Seq<FragmentView>) -> bool {
    &&& forall|i: int| 0 <= i < fs.len() ==> fragment_well_formed(#[trigger] fs[i])
    &&& forall|i: int, j: int| 0 <= i && j == i + 1 && j < fs.len() ==> !((#[trigger] fs[i]) is Literal && (
    #[trigger] fs[j]) is Literal)
}

proof fn lemma_literal_text_concat(a: Seq<FragmentView>, b: Seq<FragmentView>)
    ensures
        literal_text(a + b) == literal_text(a) + literal_text(b),
    decreases a.len(),
{
    if a.len() == 0 {
        assert(a + b =~= b);
    } else {
        lemma_literal_text_concat(a.drop_first(), b);
        assert((a + b).drop_first() =~= a.drop_first() + b);
        assert((a + b)[0] == a[0]);
    }
}

/// What parsing gives for a body: well-formed fragments, AI fragments numbered
/// on from `ai` in order, and literal text that is the body with its
/// placeholders taken out.
pub proof fn law_parsed_fragments(rest: Seq<char>, ai: nat)
    requires
        parse_rest(rest, ai) is Ok,
    ensures
        fragments_well_formed(parse_rest(rest, ai)->Ok_0),
        ai_numbered_from(parse_rest(rest, ai)->Ok_0, ai),
        literal_text(parse_rest(rest, ai)->Ok_0) == without_placeholders(rest),
    decreases rest.len(),
{
    let g = parse_rest(rest, ai)->Ok_0;
    match first_pair(rest, '{', '{') {
        None => {
            if rest.len() > 0 {
                assert(g == seq![FragmentView::Literal(rest)]);
                assert(g.drop_first() =~= Seq::<FragmentView>::empty());
                assert(literal_text(g.drop_first()) == Seq::<char>::empty());
                assert(ai_numbered_from(g.drop_first(), ai));
                assert(literal_text(g) =~= rest + Seq::<char>::empty());
            } else {
                assert(g =~= Seq::<FragmentView>::empty());
                assert(rest =~= Seq::<char>::empty());
            }
        },
        Some(s) => {
            lemma_first_pair_bounds(rest, '{', '{');
            let after = rest.skip(s + 2);
            let e = first_pair(after, '}', '}')->0;
            lemma_first_pair_bounds(after, '}', '}');
            let raw = after.take(e);
            let frag = placeholder_fragment(trim(raw), ai)->Ok_0;
            let next = if frag is Ai {
                ai + 1
            } else {
                ai
            };
            let tail_text = after.skip(e + 2);
            law_parsed_fragments(tail_text, next);
            let t = parse_rest(tail_text, next)->Ok_0;
            let lit = if s > 0 {
                seq![FragmentView::Literal(rest.take(s))]
            } else {
                Seq::<FragmentView>::empty()
            };
            let head = lit.push(frag);
            assert(g == head + t);
            assert(!(frag is Literal));
            assert(fragment_well_formed(frag)) by {
                reveal_strlit("current_year()");
                reveal_strlit("repo_name()");
            }
            // each fragment well formed
            assert forall|i: int| 0 <= i < g.len() implies fragment_well_formed(#[trigger] g[i]) by {
                if i >= head.len() {
                    assert(g[i] == t[i - head.len()]);
                }
            }
            assert forall|i: int, j: int| 0 <= i && j == i + 1 && j < g.len() implies !((#[trigger] g[i]) is Literal && (
            #[trigger] g[j]) is Literal) by {
                if i >= head.len() {
                    assert(g[i] == t[i - head.len()] && g[j] == t[j - head.len()]);
                } else if i == head.len() - 1 {
                    assert(g[i] == frag);
                } else {
                    assert(g[j] == head[j]);
                }
            }
            // AI numbering
            let rest_g = if s > 0 {
                g.drop_first()
            } else {
                g
            };
            if s > 0 {
                assert(g[0] == FragmentView::Literal(rest.take(s)));
                assert(g.drop_first() =~= seq![frag] + t);
            }
            assert(rest_g =~= seq![frag] + t);
            assert(rest_g[0] == frag);
            assert(rest_g.drop_first() =~= t);
            assert(ai_numbered_from(rest_g, ai));
            // literal text
            lemma_literal_text_concat(head, t);
            lemma_literal_text_concat(lit, seq![frag]);
            assert(head =~= lit + seq![frag]);
            assert(seq![frag].drop_first() =~= Seq::<FragmentView>::empty());
            assert(literal_text(seq![frag].drop_first()) == Seq::<char>::empty());
            assert(literal_text(seq![frag]) =~= Seq::<char>::empty());
            if s > 0 {
                assert(lit.drop_first() =~= Seq::<FragmentView>::empty());
                assert(literal_text(lit.drop_first()) == Seq::<char>::empty());
                assert(literal_text(lit) =~= rest.take(s));
            } else {
                assert(literal_text(lit) =~= rest.take(s));
            }
        },
    }
}

/// An error from parsing a template body.
#[derive(Debug, Clone, PartialEq, Eq)]
pub enum TemplateError {
    Unterminated(String),
    Multiline(String),
    EmptyPlaceholder(String),
    EmptyAiPrompt(String),
    InvalidPlaceholder(String, String),
}

/// The message for a refused template in `source_path`.
pub open spec fn template_failure_message(f: TemplateFailure, source_path: Seq<char>) -> Seq<char> {
    match f {
        TemplateFailure::Unterminated => "unterminated template placeholder in "@ + source_path,
        TemplateFailure::Multiline => "multiline template placeholders are not supported in "@
            + source_path,
        TemplateFailure::EmptyPlaceholder => "empty template placeholder in "@ + source_path,
        TemplateFailure::EmptyAiPrompt => "empty AI placeholder prompt in "@ + source_path,
        TemplateFailure::InvalidPlaceholder(name) => "invalid placeholder `"@ + name + "` in "@
            + source_path,
    }
}

impl TemplateError {
    pub open spec fn failure(&self) -> TemplateFailure {
        match self {
            TemplateError::Unterminated(_) => TemplateFailure::Unterminated,
            TemplateError::Multiline(_) => TemplateFailure::Multiline,
            TemplateError::EmptyPlaceholder(_) => TemplateFailure::EmptyPlaceholder,
            TemplateError::EmptyAiPrompt(_) => TemplateFailure::EmptyAiPrompt,
            TemplateError::InvalidPlaceholder(name, _) => TemplateFailure::InvalidPlaceholder(name@),
        }
    }

    pub open spec fn source_path(&self) -> Seq<char> {
        match self {
            TemplateError::Unterminated(p) => p@,
            TemplateError::Multiline(p) => p@,
            TemplateError::EmptyPlaceholder(p) => p@,
            TemplateError::EmptyAiPrompt(p) => p@,
            TemplateError::InvalidPlaceholder(_, p) => p@,
        }
    }

    /// The text of the error.
    pub fn message(&self) -> (m: String)
        ensures
            m@ == template_failure_message(self.failure(), self.source_path()),
    {
        let mut m = String::new();
        match self {
            TemplateError::Unterminated(p) => {
                push_str(&mut m, "unterminated template placeholder in ");
                push_str(&mut m, p.as_str());
            },
            TemplateError::Multiline(p) => {
                push_str(&mut m, "multiline template placeholders are not supported in ");
                push_str(&mut m, p.as_str());
            },
            TemplateError::EmptyPlaceholder(p) => {
                push_str(&mut m, "empty template placeholder in ");
                push_str(&mut m, p.as_str());
            },
            TemplateError::EmptyAiPrompt(p) => {
                push_str(&mut m, "empty AI placeholder prompt in ");
                push_str(&mut m, p.as_str());
            },
            TemplateError::InvalidPlaceholder(name, p) => {
                push_str(&mut m, "invalid placeholder `");
                push_str(&mut m, name.as_str());
                push_str(&mut m, "` in ");
                push_str(&mut m, p.as_str());
            },
        }
        m
    }
}

fn push_fragment(v: &mut Vec<TemplateFragment>, f: TemplateFragment)
    ensures
        frags_view(final(v)@) == frags_view(old(v)@).push(f.view()),
{
    let ghost fv = f.view();
    v.push(f);
    assert(frags_view(v@) =~= frags_view(old(v)@).push(fv));
}

/// The fragment for a placeholder's trimmed text (see [`placeholder_fragment`]).
fn placeholder_from(inner: &Vec<char>, ai: usize, source_path: &str) -> (r: Result<
    TemplateFragment,
    TemplateError,
>)
    requires
        inner@.len() > 0,
    ensures
        match (r, placeholder_fragment(inner@, ai as nat)) {
            (Ok(f), Ok(g)) => f.view() == g,
            (Err(e), Err(g)) => e.failure() == g && e.source_path() == source_path@,
            _ => false,
        },
{
    proof {
        reveal_strlit("ai:");
    }
    if inner.len() >= 3 && inner[0] == 'a' && inner[1] == 'i' && inner[2] == ':' {
        assert(has_prefix(inner@, "ai:"@)) by {
            assert(inner@.subrange(0, 3) =~= "ai:"@);
        }
        let (lo, hi) = trim_bounds(inner, 3, inner.len());
        assert(inner@.subrange(3, inner.len() as int) =~= inner@.skip(3));
        if lo == hi {
            return Err(TemplateError::EmptyAiPrompt(source_path.to_owned()));
        }
        let prompt = string_from_range(inner, lo, hi);
        return Ok(TemplateFragment::Ai(AiPlaceholder { index: ai, prompt }));
    }
    assert(!has_prefix(inner@, "ai:"@)) by {
        if has_prefix(inner@, "ai:"@) {
            assert(inner@.subrange(0, 3)[0] == 'a');
            assert(inner@.subrange(0, 3)[1] == 'i');
            assert(inner@.subrange(0, 3)[2] == ':');
        }
    }
    let name = from_chars(inner);
    if is_valid_identifier(name.as_str()) {
        let prompt = humanize_identifier(name.as_str());
        return Ok(TemplateFragment::Text(TextPlaceholder { name, prompt }));
    }
    match supported_tera_expression(name.as_str()) {
        Some(e) => Ok(TemplateFragment::Expression(e)),
        None => Err(TemplateError::InvalidPlaceholder(name, source_path.to_owned())),
    }
}

/// Whether `v[lo..hi]` holds a line break.
fn has_newline(v: &Vec<char>, lo: usize, hi: usize) -> (r: bool)
    requires
        lo <= hi <= v.len(),
    ensures
        r == v@.subrange(lo as int, hi as int).contains('\n'),
{
    let ghost raw = v@.subrange(lo as int, hi as int);
    let mut k: usize = lo;
    while k < hi
        invariant
            lo <= k <= hi <= v.len(),
            raw == v@.subrange(lo as int, hi as int),
            forall|j: int| lo <= j < k ==> v@[j] != '\n',
        decreases hi - k,
    {
        if v[k] == '\n' {
            assert(raw[k - lo] == '\n');
            return true;
        }
        k += 1;
    }
    assert(!raw.contains('\n')) by {
        if raw.contains('\n') {
            let j = choose|j: int| 0 <= j < raw.len() && raw[j] == '\n';
            assert(v@[lo + j] == '\n');
        }
    }
    false
}

/// Splits a template body into fragments (see [`parse_rest`]); errors name
/// `source_path`. The fragments are as [`law_parsed_fragments`] describes.
pub fn parse_template_fragments(body: &str, source_path: &str) -> (r: Result<Vec<TemplateFragment>, TemplateError>)
    ensures
        match (r, parse_rest(body@, 0)) {
            (Ok(v), Ok(g)) => frags_view(v@) == g,
            (Err(e), Err(g)) => e.failure() == g && e.source_path() == source_path@,
            _ => false,
        },
        r matches Ok(v) ==> {
            &&& fragments_well_formed(frags_view(v@))
            &&& ai_numbered_from(frags_view(v@), 0)
            &&& literal_text(frags_view(v@)) == without_placeholders(body@)
        },
{
    let r = parse_fragments_of(body, source_path);
    proof {
        if r is Ok {
            law_parsed_fragments(body@, 0);
        }
    }
    r
}

/// Splits a template body into fragments (see [`parse_rest`]).
#[verifier::rlimit(40)]
fn parse_fragments_of(body: &str, source_path: &str) -> (r: Result<
    Vec<TemplateFragment>,
    TemplateError,
>)
    ensures
        match (r, parse_rest(body@, 0)) {
            (Ok(v), Ok(g)) => frags_view(v@) == g,
            (Err(e), Err(g)) => e.failure() == g && e.source_path() == source_path@,
            _ => false,
        },
{
    let v = to_chars(body);
    let mut fragments: Vec<TemplateFragment> = Vec::new();
    let mut cursor: usize = 0;
    let mut ai_index: usize = 0;
    assert(v@.skip(0) =~= v@);
    assert(frags_view(fragments@) =~= Seq::<FragmentView>::empty());
    loop
        invariant
            cursor <= v.len(),
            v@ == body@,
            ai_index <= cursor,
            parse_rest(body@, 0) == prepend(
                frags_view(fragments@),
                parse_rest(v@.skip(cursor as int), ai_index as nat),
            ),
        decreases v.len() - cursor,
    {
        let ghost rest = v@.skip(cursor as int);
        let ghost acc = frags_view(fragments@);
        match find_pair(&v, cursor, '{', '{') {
            None => {
                if cursor < v.len() {
                    let lit = string_from_range(&v, cursor, v.len());
                    assert(v@.subrange(cursor as int, v.len() as int) =~= rest);
                    push_fragment(&mut fragments, TemplateFragment::Literal(lit));
                    assert(acc + seq![FragmentView::Literal(rest)] =~= frags_view(fragments@));
                } else {
                    assert(acc + Seq::<FragmentView>::empty() =~= acc);
                }
                return Ok(fragments);
            },
            Some(start) => {
                let ghost s = start - cursor;
                if start > cursor {
                    let lit = string_from_range(&v, cursor, start);
                    assert(v@.subrange(cursor as int, start as int) =~= rest.take(s));
                    push_fragment(&mut fragments, TemplateFragment::Literal(lit));
                }
                let ghost lit_seq = if s > 0 {
                    seq![FragmentView::Literal(rest.take(s))]
                } else {
                    Seq::<FragmentView>::empty()
                };
                assert(frags_view(fragments@) =~= acc + lit_seq);
                let content_start = start + 2;
                let ghost after = rest.skip(s + 2);
                assert(after =~= v@.skip(content_start as int));
                match find_pair(&v, content_start, '}', '}') {
                    None => {
                        return Err(TemplateError::Unterminated(source_path.to_owned()));
                    },
                    Some(end) => {
                        let ghost e = end - content_start;
                        let ghost raw = after.take(e);
                        assert(raw =~= v@.subrange(content_start as int, end as int));
                        if has_newline(&v, content_start, end) {
                            return Err(TemplateError::Multiline(source_path.to_owned()));
                        }
                        let (lo, hi) = trim_bounds(&v, content_start, end);
                        if lo == hi {
                            return Err(TemplateError::EmptyPlaceholder(source_path.to_owned()));
                        }
                        let inner_str = string_from_range(&v, lo, hi);
                        let inner = to_chars(inner_str.as_str());
                        let frag = placeholder_from(&inner, ai_index, source_path);
                        match frag {
                            Err(err) => {
                                return Err(err);
                            },
                            Ok(f) => {
                                let is_ai = match &f {
                                    TemplateFragment::Ai(_) => true,
                                    _ => false,
                                };
                                let ghost fv = f.view();
                                push_fragment(&mut fragments, f);
                                assert(frags_view(fragments@) =~= acc + lit_seq.push(fv));
                                if is_ai {
                                    ai_index += 1;
                                }
                                cursor = end + 2;
                                assert(after.skip(e + 2) =~= v@.skip(cursor as int));
                                assert(prepend(acc, prepend(lit_seq.push(fv), parse_rest(v@.skip(cursor as int), ai_index as nat)))
                                    == prepend(acc + lit_seq.push(fv), parse_rest(v@.skip(cursor as int), ai_index as nat))) by {
                                    match parse_rest(v@.skip(cursor as int), ai_index as nat) {
                                        Ok(t) => {
                                            assert(acc + (lit_seq.push(fv) + t) =~= acc + lit_seq.push(fv) + t);
                                        },
                                        Err(_) => {},
                                    }
                                }
                            },
                        }
                    },
                }
            },
        }
    }
}

/// The part of a README that an AI fragment writes.
#[derive(Debug, Clone, Copy, PartialEq, Eq, Structural)]
pub enum ReadmeFragmentRole {
    Badges,
    Overview,
    QuickStart,
    Usage,
    Tests,
}

pub open spec fn role_label(r: ReadmeFragmentRole) -> Seq<char> {
    match r {
        ReadmeFragmentRole::Badges => "Badges"@,
        ReadmeFragmentRole::Overview => "Overview"@,
        ReadmeFragmentRole::QuickStart => "Quick Start"@,
        ReadmeFragmentRole::Usage => "Usage"@,
        ReadmeFragmentRole::Tests => "Tests"@,
    }
}

impl ReadmeFragmentRole {
    /// The heading that names this part of a README.
    pub fn label(self) -> (s: &'static str)
        ensures
            s@ == role_label(self),
    {
        match self {
            ReadmeFragmentRole::Badges => "Badges",
            ReadmeFragmentRole::Overview => "Overview",
            ReadmeFragmentRole::QuickStart => "Quick Start",
            ReadmeFragmentRole::Usage => "Usage",
            ReadmeFragmentRole::Tests => "Tests",
        }
    }
}

/// The README roles, in the order a README template's AI fragments take them.
pub open spec fn readme_roles() -> Seq<ReadmeFragmentRole> {
    seq![
        ReadmeFragmentRole::Badges,
        ReadmeFragmentRole::Overview,
        ReadmeFragmentRole::QuickStart,
        ReadmeFragmentRole::Usage,
        ReadmeFragmentRole::Tests,
    ]
}

/// An AI placeholder with the label it is shown under and its README role.
#[derive(Debug, Clone, PartialEq, Eq)]
pub struct AiFragment {
    pub placeholder: AiPlaceholder,
    pub label: String,
    pub readme_role: Option<ReadmeFragmentRole>,
}

/// An AI fragment as plain values.
pub struct AiFragmentView {
    pub index: nat,
    pub prompt: Seq<char>,
    pub label: Seq<char>,
    pub role: Option<ReadmeFragmentRole>,
}

impl AiFragment {
    pub open spec fn view(&self) -> AiFragmentView {
        AiFragmentView {
            index: self.placeholder.index as nat,
            prompt: self.placeholder.prompt@,
            label: self.label@,
            role: self.readme_role,
        }
    }
}

pub open spec fn ai_frags_view(v: Seq<AiFragment>) -> Seq<AiFragmentView> {
    v.map_values(|f: AiFragment| f.view())
}

/// The heading text of a line, when it is a Markdown heading with a title.
pub open spec fn heading_title(line: Seq<char>) -> Option<Seq<char>> {
    let t = trim(line);
    if t.len() > 0 && t[0] == '#' {
        let title = trim(trim_start_char(t, '#'));
        if title.len() > 0 {
            Some(title)
        } else {
            None
        }
    } else {
        None
    }
}

/// The title of the last heading among `ls`.
pub open spec fn last_heading_of(ls: Seq<Seq<char>>) -> Option<Seq<char>>
    decreases ls.len(),
{
    if ls.len() == 0 {
        None
    } else {
        match heading_title(ls.last()) {
            Some(h) => Some(h),
            None => last_heading_of(ls.drop_last()),
        }
    }
}

/// The title of the last Markdown heading in `text`.
pub open spec fn last_markdown_heading_spec(text: Seq<char>) -> Option<Seq<char>> {
    last_heading_of(lines(text))
}

fn heading_of_line(line: &str) -> (r: Option<String>)
    ensures
        match (r, heading_title(line@)) {
            (Some(a), Some(b)) => a@ == b,
            (None, None) => true,
            _ => false,
        },
{
    let v = to_chars(line);
    let (lo, hi) = trim_bounds(&v, 0, v.len());
    assert(v@.subrange(0, v.len() as int) =~= v@);
    let ghost t = v@.subrange(lo as int, hi as int);
    if lo < hi && v[lo] == '#' {
        let mut k = lo;
        while k < hi && v[k] == '#'
            invariant
                lo <= k <= hi <= v.len(),
                t == v@.subrange(lo as int, hi as int),
                trim_start_char(t, '#') == trim_start_char(v@.subrange(k as int, hi as int), '#'),
            decreases hi - k,
        {
            assert(v@.subrange(k as int, hi as int).drop_first() =~= v@.subrange(k + 1, hi as int));
            k += 1;
        }
        let (a, b) = trim_bounds(&v, k, hi);
        if a < b {
            Some(string_from_range(&v, a, b))
        } else {
            None
        }
    } else {
        None
    }
}

/// The title of the last Markdown heading in `text` (see [`last_markdown_heading_spec`]).
pub fn last_markdown_heading(text: &str) -> (r: Option<String>)
    ensures
        match (r, last_markdown_heading_spec(text@)) {
            (Some(a), Some(b)) => a@ == b,
            (None, None) => true,
            _ => false,
        },
{
    let ls = lines_of(text);
    let ghost lv = strs_view(ls@);
    let mut i = ls.len();
    assert(lv.take(ls.len() as int) =~= lv);
    while i > 0
        invariant
            i <= ls.len(),
            lv == strs_view(ls@),
            lv == lines(text@),
            last_heading_of(lv) == last_heading_of(lv.take(i as int)),
        decreases i,
    {
        assert(lv.take(i as int).last() == ls@[i - 1]@);
        match heading_of_line(ls[i - 1].as_str()) {
            Some(h) => {
                return Some(h);
            },
            None => {},
        }
        assert(lv.take(i as int).drop_last() =~= lv.take(i - 1));
        i -= 1;
    }
    None
}

/// State while labelling AI fragments.
pub struct LabelState {
    pub out: Seq<AiFragmentView>,
    pub last_heading: Option<Seq<char>>,
    pub generic_index: nat,
    pub readme_index: nat,
}

pub open spec fn label_step(st: LabelState, f: FragmentView, readme: bool) -> LabelState {
    match f {
        FragmentView::Literal(t) => match last_markdown_heading_spec(t) {
            Some(h) => LabelState { last_heading: Some(h), ..st },
            None => st,
        },
        FragmentView::Ai(index, prompt) => {
            if readme && st.readme_index < 5 {
                let role = readme_roles()[st.readme_index as int];
                LabelState {
                    out: st.out.push(AiFragmentView { index, prompt, label: role_label(role), role: Some(role) }),
                    readme_index: st.readme_index + 1,
                    ..st
                }
            } else {
                match st.last_heading {
                    Some(h) => LabelState {
                        out: st.out.push(AiFragmentView { index, prompt, label: h, role: None }),
                        ..st
                    },
                    None => LabelState {
                        out: st.out.push(
                            AiFragmentView {
                                index,
                                prompt,
                                label: "Generate block "@ + decimal(st.generic_index),
                                role: None,
                            },
                        ),
                        generic_index: st.generic_index + 1,
                        ..st
                    },
                }
            }
        },
        _ => st,
    }
}

pub open spec fn label_fold(fs: Seq<FragmentView>, readme: bool) -> LabelState
    decreases fs.len(),
{
    if fs.len() == 0 {
        LabelState { out: Seq::empty(), last_heading: None, generic_index: 1, readme_index: 0 }
    } else {
        label_step(label_fold(fs.drop_last(), readme), fs.last(), readme)
    }
}

/// The AI fragments of a template in order: in a README the first five take the
/// README roles; others are labelled by the last heading before them, else
/// "Generate block N", counting from 1.
pub open spec fn ai_fragments_spec(fs: Seq<FragmentView>, readme: bool) -> Seq<AiFragmentView> {
    label_fold(fs, readme).out
}

/// The marker that stands for the fragment being written.
pub open spec fn ai_sentinel_spec(index: nat) -> Seq<char> {
    "[[NANITE_FRAGMENT_"@ + decimal(index + 1) + "]]"@
}

/// The marker for fragment `index` (numbered from 1 in the text).
pub fn ai_sentinel(index: usize) -> (s: String)
    requires
        index < usize::MAX,
    ensures
        s@ == ai_sentinel_spec(index as nat),
{
    let mut s = String::new();
    push_str(&mut s, "[[NANITE_FRAGMENT_");
    push_str(&mut s, decimal_string(index + 1).as_str());
    push_str(&mut s, "]]");
    s
}

fn copy_placeholder(p: &AiPlaceholder) -> (q: AiPlaceholder)
    ensures
        q == *p,
{
    AiPlaceholder { index: p.index, prompt: p.prompt.clone() }
}

/// The AI fragments of a fragment list (see [`ai_fragments_spec`]).
pub fn ai_fragments_of(fragments: &Vec<TemplateFragment>, readme: bool) -> (out: Vec<AiFragment>)
    requires
        fragments@.len() < usize::MAX,
    ensures
        ai_frags_view(out@) == ai_fragments_spec(frags_view(fragments@), readme),
{
    let ghost fs = frags_view(fragments@);
    let mut out: Vec<AiFragment> = Vec::new();
    let mut last_heading: Option<String> = None;
    let mut generic_index: usize = 1;
    let mut readme_index: usize = 0;
    let mut i: usize = 0;
    assert(ai_frags_view(out@) =~= Seq::<AiFragmentView>::empty());
    while i < fragments.len()
        invariant
            i <= fragments.len(),
            fragments@.len() < usize::MAX,
            fs == frags_view(fragments@),
            generic_index <= i + 1,
            readme_index <= i,
            label_fold(fs.take(i as int), readme) == (LabelState {
                out: ai_frags_view(out@),
                last_heading: match last_heading {
                    Some(h) => Some(h@),
                    None => None,
                },
                generic_index: generic_index as nat,
                readme_index: readme_index as nat,
            }),
        decreases fragments.len() - i,
    {
        assert(fs.take(i + 1).drop_last() =~= fs.take(i as int));
        assert(fs.take(i + 1).last() == fragments@[i as int].view());
        match &fragments[i] {
            TemplateFragment::Literal(text) => {
                match last_markdown_heading(text.as_str()) {
                    Some(h) => {
                        last_heading = Some(h);
                    },
                    None => {},
                }
            },
            TemplateFragment::Ai(placeholder) => {
                let ghost before = out@;
                if readme && readme_index < 5 {
                    let role = if readme_index == 0 {
                        ReadmeFragmentRole::Badges
                    } else if readme_index == 1 {
                        ReadmeFragmentRole::Overview
                    } else if readme_index == 2 {
                        ReadmeFragmentRole::QuickStart
                    } else if readme_index == 3 {
                        ReadmeFragmentRole::Usage
                    } else {
                        ReadmeFragmentRole::Tests
                    };
                    assert(role == readme_roles()[readme_index as int]);
                    let f = AiFragment {
                        placeholder: copy_placeholder(placeholder),
                        label: role.label().to_owned(),
                        readme_role: Some(role),
                    };
                    let ghost fv = f.view();
                    out.push(f);
                    assert(ai_frags_view(out@) =~= ai_frags_view(before).push(fv));
                    readme_index += 1;
                } else {
                    match &last_heading {
                        Some(h) => {
                            let f = AiFragment {
                                placeholder: copy_placeholder(placeholder),
                                label: h.clone(),
                                readme_role: None,
                            };
                            let ghost fv = f.view();
                            out.push(f);
                            assert(ai_frags_view(out@) =~= ai_frags_view(before).push(fv));
                        },
                        None => {
                            let mut label = String::new();
                            push_str(&mut label, "Generate block ");
                            push_str(&mut label, decimal_string(generic_index).as_str());
                            let f = AiFragment {
                                placeholder: copy_placeholder(placeholder),
                                label,
                                readme_role: None,
                            };
                            let ghost fv = f.view();
                            out.push(f);
                            assert(ai_frags_view(out@) =~= ai_frags_view(before).push(fv));
                            generic_index += 1;
                        },
                    }
                }
            },
            _ => {},
        }
        i += 1;
    }
    assert(fs.take(fragments.len() as int) =~= fs);
    out
}

} // verus!

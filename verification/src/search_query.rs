//! Search queries: splitting a typed query into terms and qualifiers, and
//! normalizing text the way the index tokenizes it.
use crate::text::{
    has_prefix, is_whitespace, join, join_strings, push_char, push_str, string_from_range,
    strs_view, to_chars, trim, trim_bounds, char_is_whitespace, from_chars, ascii_lower, is_ascii_alpha,
    is_ascii_digit, is_ascii_lower, is_ascii_upper,
};
use crate::unicode::{
    char_is_alphabetic, char_is_alphanumeric, char_is_lowercase, char_is_numeric,
    char_is_uppercase, char_to_lowercase, unicode_is_alphabetic, unicode_is_lowercase,
    unicode_is_numeric, unicode_is_uppercase, unicode_to_lowercase,
};
use vstd::prelude::*;
use vstd::string::StringSliceAdditionalSpecFns;

verus! {

/// Tokenizer state: tokens so far, the token being read, whether inside quotes.
pub struct TokenState {
    pub tokens: Seq<Seq<char>>,
    pub current: Seq<char>,
    pub in_quotes: bool,
}

pub open spec fn token_step(st: TokenState, c: char) -> TokenState {
    if c == '"' {
        TokenState { tokens: st.tokens, current: st.current.push(c), in_quotes: !st.in_quotes }
    } else if is_whitespace(c) && !st.in_quotes {
        if st.current.len() > 0 {
            TokenState { tokens: st.tokens.push(st.current), current: Seq::empty(), in_quotes: false }
        } else {
            st
        }
    } else {
        TokenState { tokens: st.tokens, current: st.current.push(c), in_quotes: st.in_quotes }
    }
}

pub open spec fn token_fold(s: Seq<char>) -> TokenState
    decreases s.len(),
{
    if s.len() == 0 {
        TokenState { tokens: Seq::empty(), current: Seq::empty(), in_quotes: false }
    } else {
        token_step(token_fold(s.drop_last()), s.last())
    }
}

/// The tokens of a query: split at whitespace outside double quotes, quotes kept.
pub open spec fn query_tokens(s: Seq<char>) -> Seq<Seq<char>> {
    let st = token_fold(s);
    if st.current.len() > 0 {
        st.tokens.push(st.current)
    } else {
        st.tokens
    }
}

/// Splits a query into tokens (see [`query_tokens`]).
pub fn split_query_tokens(input: &str) -> (out: Vec<String>)
    ensures
        strs_view(out@) == query_tokens(input@),
{
    let v = to_chars(input);
    let mut tokens: Vec<String> = Vec::new();
    let mut current: Vec<char> = Vec::new();
    let mut in_quotes = false;
    let mut i: usize = 0;
    assert(strs_view(tokens@) =~= Seq::<Seq<char>>::empty());
    assert(current@ =~= Seq::<char>::empty());
    while i < v.len()
        invariant
            i <= v.len(),
            v@ == input@,
            token_fold(v@.take(i as int)) == (TokenState {
                tokens: strs_view(tokens@),
                current: current@,
                in_quotes,
            }),
        decreases v.len() - i,
    {
        let c = v[i];
        assert(v@.take(i + 1).drop_last() =~= v@.take(i as int));
        if c == '"' {
            in_quotes = !in_quotes;
            current.push(c);
        } else if char_is_whitespace(c) && !in_quotes {
            if current.len() > 0 {
                let piece = from_chars(&current);
                let ghost before = tokens@;
                tokens.push(piece);
                assert(strs_view(tokens@) =~= strs_view(before).push(current@));
                current = Vec::new();
            }
        } else {
            current.push(c);
        }
        i += 1;
    }
    assert(v@.take(v.len() as int) =~= v@);
    if current.len() > 0 {
        let piece = from_chars(&current);
        let ghost before = tokens@;
        tokens.push(piece);
        assert(strs_view(tokens@) =~= strs_view(before).push(current@));
    }
    tokens
}

/// Text cut at each whitespace character (pieces may be empty).
pub open spec fn split_at_whitespace(s: Seq<char>) -> Seq<Seq<char>>
    decreases s.len(),
{
    if s.len() == 0 {
        seq![Seq::<char>::empty()]
    } else {
        let r = split_at_whitespace(s.drop_last());
        if is_whitespace(s.last()) {
            r.push(Seq::<char>::empty())
        } else {
            r.update(r.len() - 1, r.last().push(s.last()))
        }
    }
}

/// Whether a piece of text is not empty.
pub open spec fn non_empty_piece() -> spec_fn(Seq<char>) -> bool {
    |p: Seq<char>| p.len() > 0
}

proof fn lemma_split_at_whitespace_len(s: Seq<char>)
    ensures
        split_at_whitespace(s).len() >= 1,
    decreases s.len(),
{
    if s.len() > 0 {
        lemma_split_at_whitespace_len(s.drop_last());
    }
}

proof fn lemma_unquoted_token_fold(s: Seq<char>)
    requires
        !s.contains('"'),
    ensures
        !token_fold(s).in_quotes,
        token_fold(s).current == split_at_whitespace(s).last(),
        token_fold(s).tokens == split_at_whitespace(s).drop_last().filter(non_empty_piece()),
    decreases s.len(),
{
    reveal(Seq::filter);
    if s.len() == 0 {
        assert(split_at_whitespace(s).drop_last() =~= Seq::<Seq<char>>::empty());
    } else {
        let init = s.drop_last();
        assert(!init.contains('"')) by {
            if init.contains('"') {
                let k = choose|k: int| 0 <= k < init.len() && init[k] == '"';
                assert(s[k] == '"');
            }
        }
        lemma_unquoted_token_fold(init);
        lemma_split_at_whitespace_len(init);
        let c = s.last();
        assert(c != '"') by {
            assert(s[s.len() - 1] == c);
        }
        let r = split_at_whitespace(init);
        if is_whitespace(c) {
            assert(r.push(Seq::<char>::empty()).drop_last() =~= r);
            assert(r =~= r.drop_last().push(r.last()));
        } else {
            assert(r.update(r.len() - 1, r.last().push(c)).drop_last() =~= r.drop_last());
        }
    }
}

/// A query without double quotes splits exactly at whitespace: its tokens are
/// the non-empty pieces between whitespace characters, in order.
pub proof fn law_unquoted_query_splits_at_whitespace(s: Seq<char>)
    requires
        !s.contains('"'),
    ensures
        query_tokens(s) == split_at_whitespace(s).filter(non_empty_piece()),
{
    reveal(Seq::filter);
    lemma_unquoted_token_fold(s);
    lemma_split_at_whitespace_len(s);
    let r = split_at_whitespace(s);
    assert(r =~= r.drop_last().push(r.last()));
}

proof fn lemma_open_quote_fold(v: Seq<char>)
    requires
        !v.contains('"'),
    ensures
        token_fold(seq!['"'] + v) == (TokenState { tokens: Seq::empty(), current: seq!['"'] + v, in_quotes: true }),
    decreases v.len(),
{
    let s = seq!['"'] + v;
    if v.len() == 0 {
        assert(s =~= seq!['"']);
        assert(s.drop_last() =~= Seq::<char>::empty());
        assert(Seq::<char>::empty().push('"') =~= seq!['"']);
        assert(token_fold(s) == token_step(token_fold(Seq::<char>::empty()), '"'));
    } else {
        let init = v.drop_last();
        assert(!init.contains('"')) by {
            if init.contains('"') {
                let k = choose|k: int| 0 <= k < init.len() && init[k] == '"';
                assert(v[k] == '"');
            }
        }
        lemma_open_quote_fold(init);
        assert(s.drop_last() =~= seq!['"'] + init);
        assert(s.last() == v.last());
        assert(v.last() != '"') by {
            assert(v[v.len() - 1] == v.last());
        }
        assert((seq!['"'] + init).push(v.last()) =~= s);
        assert(token_fold(s) == token_step(token_fold(seq!['"'] + init), v.last()));
    }
}

/// Whitespace inside double quotes does not split: a quoted value without
/// further quotes is one token, quotes kept.
pub proof fn law_quoted_text_is_one_token(v: Seq<char>)
    requires
        !v.contains('"'),
    ensures
        query_tokens(seq!['"'] + v + seq!['"']) == seq![seq!['"'] + v + seq!['"']],
{
    lemma_open_quote_fold(v);
    let s = seq!['"'] + v + seq!['"'];
    assert(s.drop_last() =~= seq!['"'] + v);
    assert(s.last() == '"');
    assert((seq!['"'] + v).push('"') =~= s);
}

/// One pair of surrounding double quotes is removed, and nothing else: a
/// quoted value gives the value, and text that does not begin with a quote,
/// or does not end with one, is kept as it is.
pub proof fn law_unquote_removes_one_pair(v: Seq<char>, s: Seq<char>)
    ensures
        unquote(seq!['"'] + v + seq!['"']) == v,
        (s.len() == 0 || s[0] != '"' || s.last() != '"') ==> unquote(s) == s,
{
    let q = seq!['"'] + v + seq!['"'];
    assert(q[0] == '"');
    assert(q.last() == '"');
    assert(q.subrange(1, q.len() - 1) =~= v);
}

/// `value` without one pair of surrounding double quotes.
pub open spec fn unquote(s: Seq<char>) -> Seq<char> {
    if s.len() >= 2 && s[0] == '"' && s.last() == '"' {
        s.subrange(1, s.len() - 1)
    } else {
        s
    }
}

/// Removes one pair of surrounding double quotes (see [`unquote`]).
pub fn trim_matching_quotes(value: &str) -> (out: String)
    ensures
        out@ == unquote(value@),
{
    let v = to_chars(value);
    if v.len() >= 2 && v[0] == '"' && v[v.len() - 1] == '"' {
        string_from_range(&v, 1, v.len() - 1)
    } else {
        from_chars(&v)
    }
}

/// The parts of a query: free text and `repo:`, `path:`, `file:`, `lang:` qualifiers.
pub struct QueryPartsView {
    pub terms: Seq<Seq<char>>,
    pub repo: Seq<Seq<char>>,
    pub path: Seq<Seq<char>>,
    pub file: Seq<Seq<char>>,
    pub lang: Seq<Seq<char>>,
}

pub open spec fn parts_step(p: QueryPartsView, token: Seq<char>) -> QueryPartsView {
    if has_prefix(token, "repo:"@) {
        QueryPartsView { repo: p.repo.push(unquote(token.skip(5))), ..p }
    } else if has_prefix(token, "path:"@) {
        QueryPartsView { path: p.path.push(unquote(token.skip(5))), ..p }
    } else if has_prefix(token, "file:"@) {
        QueryPartsView { file: p.file.push(unquote(token.skip(5))), ..p }
    } else if has_prefix(token, "lang:"@) {
        QueryPartsView { lang: p.lang.push(unquote(token.skip(5))), ..p }
    } else {
        QueryPartsView { terms: p.terms.push(token), ..p }
    }
}

pub open spec fn parts_fold(tokens: Seq<Seq<char>>) -> QueryPartsView
    decreases tokens.len(),
{
    if tokens.len() == 0 {
        QueryPartsView {
            terms: Seq::empty(),
            repo: Seq::empty(),
            path: Seq::empty(),
            file: Seq::empty(),
            lang: Seq::empty(),
        }
    } else {
        parts_step(parts_fold(tokens.drop_last()), tokens.last())
    }
}

/// Whether a token carries the qualifier `q` (such as `file:`).
pub open spec fn has_qualifier(q: Seq<char>) -> spec_fn(Seq<char>) -> bool {
    |t: Seq<char>| has_prefix(t, q)
}

/// Whether a token carries none of the four qualifiers.
pub open spec fn is_free_term() -> spec_fn(Seq<char>) -> bool {
    |t: Seq<char>| !has_prefix(t, "repo:"@) && !has_prefix(t, "path:"@) && !has_prefix(t, "file:"@) && !has_prefix(
        t,
        "lang:"@,
    )
}

/// The value a qualified token gives: what follows its five-character
/// qualifier, without one pair of surrounding quotes.
pub open spec fn qualifier_value() -> spec_fn(Seq<char>) -> Seq<char> {
    |t: Seq<char>| unquote(t.skip(5))
}

/// Each qualifier fills its own list and no other: the `repo:`, `path:`,
/// `file:` and `lang:` values are, in order, the values of exactly the tokens
/// that carry that qualifier, and the free terms are, in order, exactly the
/// tokens that carry none.
pub proof fn law_qualifiers_fill_their_own_lists(ts: Seq<Seq<char>>)
    ensures
        parts_fold(ts).repo == ts.filter(has_qualifier("repo:"@)).map_values(qualifier_value()),
        parts_fold(ts).path == ts.filter(has_qualifier("path:"@)).map_values(qualifier_value()),
        parts_fold(ts).file == ts.filter(has_qualifier("file:"@)).map_values(qualifier_value()),
        parts_fold(ts).lang == ts.filter(has_qualifier("lang:"@)).map_values(qualifier_value()),
        parts_fold(ts).terms == ts.filter(is_free_term()),
    decreases ts.len(),
{
    reveal(Seq::filter);
    if ts.len() == 0 {
        assert(ts.filter(has_qualifier("repo:"@)) =~= Seq::<Seq<char>>::empty());
        assert(ts.filter(has_qualifier("path:"@)) =~= Seq::<Seq<char>>::empty());
        assert(ts.filter(has_qualifier("file:"@)) =~= Seq::<Seq<char>>::empty());
        assert(ts.filter(has_qualifier("lang:"@)) =~= Seq::<Seq<char>>::empty());
        assert(ts.filter(is_free_term()) =~= Seq::<Seq<char>>::empty());
    } else {
        let init = ts.drop_last();
        let t = ts.last();
        law_qualifiers_fill_their_own_lists(init);
        reveal_strlit("repo:");
        reveal_strlit("path:");
        reveal_strlit("file:");
        reveal_strlit("lang:");
        if t.len() >= 5 {
            assert(t.subrange(0, 5)[0] == t[0]);
        }
        let f = qualifier_value();
        assert(is_free_term()(t) == (!has_prefix(t, "repo:"@) && !has_prefix(t, "path:"@) && !has_prefix(t, "file:"@)
            && !has_prefix(t, "lang:"@)));
        assert forall|q: Seq<char>| #[trigger] ts.filter(has_qualifier(q)).map_values(f) == (if has_prefix(t, q) {
            init.filter(has_qualifier(q)).map_values(f).push(f(t))
        } else {
            init.filter(has_qualifier(q)).map_values(f)
        }) by {
            assert(has_qualifier(q)(t) == has_prefix(t, q));
            if has_prefix(t, q) {
                assert(init.filter(has_qualifier(q)).push(t).map_values(f) =~= init.filter(has_qualifier(q)).map_values(
                    f,
                ).push(f(t)));
            }
        }
    }
}

/// A query split into free text (tokens joined by spaces) and qualifier values.
pub struct QueryParts {
    pub query: String,
    pub repo_filters: Vec<String>,
    pub path_filters: Vec<String>,
    pub file_filters: Vec<String>,
    pub lang_filters: Vec<String>,
}

fn starts_with_chars(v: &Vec<char>, p: &str) -> (r: bool)
    ensures
        r == has_prefix(v@, p@),
{
    let pv = to_chars(p);
    if pv.len() > v.len() {
        return false;
    }
    let mut i: usize = 0;
    while i < pv.len()
        invariant
            i <= pv.len() <= v.len(),
            pv@ == p@,
            forall|k: int| 0 <= k < i ==> v@[k] == pv@[k],
        decreases pv.len() - i,
    {
        if v[i] != pv[i] {
            assert(v@.subrange(0, pv.len() as int)[i as int] != pv@[i as int]);
            return false;
        }
        i += 1;
    }
    assert(v@.subrange(0, pv.len() as int) =~= pv@);
    true
}

fn push_string(v: &mut Vec<String>, s: String)
    ensures
        strs_view(final(v)@) == strs_view(old(v)@).push(s@),
{
    let ghost sv = s@;
    v.push(s);
    assert(strs_view(v@) =~= strs_view(old(v)@).push(sv));
}

/// Splits a query into free text and qualifiers (see [`parts_fold`]).
pub fn query_parts(input: &str) -> (out: QueryParts)
    ensures
        out.query@ == join(parts_fold(query_tokens(input@)).terms, " "@),
        strs_view(out.repo_filters@) == parts_fold(query_tokens(input@)).repo,
        strs_view(out.path_filters@) == parts_fold(query_tokens(input@)).path,
        strs_view(out.file_filters@) == parts_fold(query_tokens(input@)).file,
        strs_view(out.lang_filters@) == parts_fold(query_tokens(input@)).lang,
{
    let tokens = split_query_tokens(input);
    let ghost ts = query_tokens(input@);
    let mut terms: Vec<String> = Vec::new();
    let mut repo: Vec<String> = Vec::new();
    let mut path: Vec<String> = Vec::new();
    let mut file: Vec<String> = Vec::new();
    let mut lang: Vec<String> = Vec::new();
    let mut i: usize = 0;
    assert(strs_view(terms@) =~= Seq::<Seq<char>>::empty());
    assert(strs_view(repo@) =~= Seq::<Seq<char>>::empty());
    assert(strs_view(path@) =~= Seq::<Seq<char>>::empty());
    assert(strs_view(file@) =~= Seq::<Seq<char>>::empty());
    assert(strs_view(lang@) =~= Seq::<Seq<char>>::empty());
    while i < tokens.len()
        invariant
            i <= tokens.len(),
            strs_view(tokens@) == ts,
            parts_fold(ts.take(i as int)) == (QueryPartsView {
                terms: strs_view(terms@),
                repo: strs_view(repo@),
                path: strs_view(path@),
                file: strs_view(file@),
                lang: strs_view(lang@),
            }),
        decreases tokens.len() - i,
    {
        assert(ts.take(i + 1).drop_last() =~= ts.take(i as int));
        assert(ts[i as int] == tokens@[i as int]@);
        let v = to_chars(tokens[i].as_str());
        if starts_with_chars(&v, "repo:") || starts_with_chars(&v, "path:") || starts_with_chars(
            &v,
            "file:",
        ) || starts_with_chars(&v, "lang:") {
            proof {
                reveal_strlit("repo:");
                reveal_strlit("path:");
                reveal_strlit("file:");
                reveal_strlit("lang:");
            }
            let rest = string_from_range(&v, 5, v.len());
            assert(v@.subrange(5, v.len() as int) =~= v@.skip(5));
            let value = trim_matching_quotes(rest.as_str());
            if starts_with_chars(&v, "repo:") {
                push_string(&mut repo, value);
            } else if starts_with_chars(&v, "path:") {
                push_string(&mut path, value);
            } else if starts_with_chars(&v, "file:") {
                push_string(&mut file, value);
            } else {
                push_string(&mut lang, value);
            }
        } else {
            push_string(&mut terms, tokens[i].clone());
        }
        i += 1;
    }
    assert(ts.take(tokens.len() as int) =~= ts);
    let query = join_strings(&terms, " ");
    QueryParts {
        query,
        repo_filters: repo,
        path_filters: path,
        file_filters: file,
        lang_filters: lang,
    }
}

/// Whether a space goes before `chars[i]`: at a lowercase-to-uppercase step, between
/// letters and digits either way, and before the last capital of a run that a
/// lowercase letter follows.
pub open spec fn boundary_before(chars: Seq<char>, i: int) -> bool {
    if i == 0 {
        false
    } else {
        let prev = chars[i - 1];
        let c = chars[i];
        ||| unicode_is_lowercase(prev) && unicode_is_uppercase(c)
        ||| unicode_is_alphabetic(prev) && unicode_is_numeric(c)
        ||| unicode_is_numeric(prev) && unicode_is_alphabetic(c)
        ||| unicode_is_uppercase(prev) && unicode_is_uppercase(c) && i + 1 < chars.len()
            && unicode_is_lowercase(chars[i + 1])
    }
}

/// Whether a word boundary falls before `chars[index]` (see [`boundary_before`]).
pub fn should_insert_boundary(index: usize, character: char, chars: &[char]) -> (r: bool)
    requires
        index < chars@.len(),
        chars@[index as int] == character,
    ensures
        r == boundary_before(chars@, index as int),
{
    if index == 0 {
        return false;
    }
    let previous = chars[index - 1];
    let next_is_lower = index + 1 < chars.len() && char_is_lowercase(chars[index + 1]);
    (char_is_lowercase(previous) && char_is_uppercase(character)) || (char_is_alphabetic(previous)
        && char_is_numeric(character)) || (char_is_numeric(previous) && char_is_alphabetic(
        character,
    )) || (char_is_uppercase(previous) && char_is_uppercase(character) && next_is_lower)
}

/// What one character becomes in searchable text.
pub open spec fn searchable_char(c: char) -> Seq<char> {
    if c == '/' || c == '\\' || c == '_' || c == '-' || c == '.' || c == ':' {
        seq![' ']
    } else if unicode_is_alphabetic(c) || unicode_is_numeric(c) {
        unicode_to_lowercase(c)
    } else {
        seq![' ']
    }
}

/// Searchable text of the first `n` characters.
pub open spec fn searchable_prefix(chars: Seq<char>, n: int) -> Seq<char>
    decreases n,
{
    if n <= 0 {
        Seq::empty()
    } else {
        searchable_prefix(chars, n - 1) + (if boundary_before(chars, n - 1) {
            seq![' ']
        } else {
            Seq::empty()
        }) + searchable_char(chars[n - 1])
    }
}

/// Text as the index sees it: identifiers split at case and digit changes,
/// separators and other symbols turned into spaces, letters lowercased.
pub open spec fn searchable(s: Seq<char>) -> Seq<char> {
    searchable_prefix(s, s.len() as int)
}

fn push_all(out: &mut String, v: &Vec<char>)
    ensures
        final(out)@ == old(out)@ + v@,
{
    let mut i: usize = 0;
    while i < v.len()
        invariant
            i <= v.len(),
            out@ == old(out)@ + v@.take(i as int),
        decreases v.len() - i,
    {
        push_char(out, v[i]);
        assert(old(out)@ + v@.take(i + 1) =~= (old(out)@ + v@.take(i as int)).push(v@[i as int]));
        i += 1;
    }
    assert(v@.take(v.len() as int) =~= v@);
}

/// A character of searchable ASCII text: a lowercase letter, a digit or a space.
pub open spec fn search_text_char(c: char) -> bool {
    is_ascii_lower(c) || is_ascii_digit(c) || c == ' '
}

/// Every character is ASCII.
pub open spec fn all_ascii(s: Seq<char>) -> bool {
    forall|i: int| 0 <= i < s.len() ==> ((#[trigger] s[i]) as u32) < 128
}

/// Searchable ASCII text: made of lowercase letters, digits and spaces, with no
/// letter right next to a digit.
pub open spec fn settled_search_text(s: Seq<char>) -> bool {
    &&& forall|i: int| 0 <= i < s.len() ==> search_text_char(#[trigger] s[i])
    &&& forall|i: int| 0 < i < s.len() ==> !(is_ascii_lower(s[i - 1]) && is_ascii_digit(#[trigger] s[i]))
    &&& forall|i: int| 0 < i < s.len() ==> !(is_ascii_digit(s[i - 1]) && is_ascii_lower(#[trigger] s[i]))
}

/// An ASCII character becomes one character: a lowercase letter for a letter,
/// the digit for a digit, a space for anything else.
proof fn lemma_ascii_searchable_char(c: char)
    requires
        (c as u32) < 128,
    ensures
        searchable_char(c).len() == 1,
        search_text_char(searchable_char(c)[0]),
        is_ascii_lower(searchable_char(c)[0]) <==> is_ascii_alpha(c),
        is_ascii_digit(searchable_char(c)[0]) <==> is_ascii_digit(c),
        search_text_char(c) ==> searchable_char(c) == seq![c],
{
    if is_ascii_upper(c) {
        assert(is_ascii_lower(ascii_lower(c)));
    }
}

/// Normalizing ASCII text, `n` characters at a time, keeps it settled and at
/// one or two characters per input character; its last character is a letter
/// or a digit exactly where the last input character is.
proof fn lemma_searchable_prefix_settles(chars: Seq<char>, n: int)
    requires
        all_ascii(chars),
        0 <= n <= chars.len(),
    ensures
        settled_search_text(searchable_prefix(chars, n)),
        n <= searchable_prefix(chars, n).len() <= 2 * n,
        n > 0 ==> (is_ascii_lower(searchable_prefix(chars, n).last()) <==> is_ascii_alpha(chars[n - 1])),
        n > 0 ==> (is_ascii_digit(searchable_prefix(chars, n).last()) <==> is_ascii_digit(chars[n - 1])),
    decreases n,
{
    if n > 0 {
        lemma_searchable_prefix_settles(chars, n - 1);
        let p = searchable_prefix(chars, n - 1);
        let c = chars[n - 1];
        assert((c as u32) < 128);
        lemma_ascii_searchable_char(c);
        let b = boundary_before(chars, n - 1);
        let mid = if b {
            seq![' ']
        } else {
            Seq::<char>::empty()
        };
        let m = searchable_char(c);
        let q = searchable_prefix(chars, n);
        assert(q == p + mid + m);
        assert(q.last() == m[0]);
        if n > 1 && !b {
            let prev = chars[n - 2];
            assert((prev as u32) < 128);
            assert(!(is_ascii_alpha(prev) && is_ascii_digit(c)));
            assert(!(is_ascii_digit(prev) && is_ascii_alpha(c)));
        }
        assert forall|i: int| 0 <= i < q.len() implies search_text_char(#[trigger] q[i]) by {
            if i < p.len() {
                assert(q[i] == p[i]);
            }
        }
        assert forall|i: int| 0 < i < q.len() implies !(is_ascii_lower(q[i - 1]) && is_ascii_digit(#[trigger] q[i])) by {
            if i < p.len() {
                assert(q[i] == p[i] && q[i - 1] == p[i - 1]);
            } else if i == p.len() {
                assert(q[i - 1] == p.last());
            }
        }
        assert forall|i: int| 0 < i < q.len() implies !(is_ascii_digit(q[i - 1]) && is_ascii_lower(#[trigger] q[i])) by {
            if i < p.len() {
                assert(q[i] == p[i] && q[i - 1] == p[i - 1]);
            } else if i == p.len() {
                assert(q[i - 1] == p.last());
            }
        }
    }
}

/// Settled text normalizes to itself, `n` characters at a time.
proof fn lemma_settled_prefix_is_fixed(s: Seq<char>, n: int)
    requires
        settled_search_text(s),
        0 <= n <= s.len(),
    ensures
        searchable_prefix(s, n) == s.take(n),
    decreases n,
{
    if n > 0 {
        lemma_settled_prefix_is_fixed(s, n - 1);
        let c = s[n - 1];
        assert(search_text_char(c));
        lemma_ascii_searchable_char(c);
        if n > 1 {
            let prev = s[n - 2];
            assert(search_text_char(prev));
            assert(!(is_ascii_lower(prev) && is_ascii_digit(c)));
            assert(!(is_ascii_digit(prev) && is_ascii_lower(c)));
        }
        assert(!boundary_before(s, n - 1));
        assert(s.take(n - 1) + seq![c] =~= s.take(n));
    }
}

/// Whether a word boundary falls before `chars[i]` in ASCII text: a lowercase
/// letter then a capital, a letter then a digit, a digit then a letter, or a
/// capital that follows a capital and comes before a lowercase letter (the
/// last capital of a run, as in `HTTPServer`).
pub open spec fn ascii_word_break(chars: Seq<char>, i: int) -> bool {
    &&& 0 < i < chars.len()
    &&& {
        let p = chars[i - 1];
        let c = chars[i];
        ||| is_ascii_lower(p) && is_ascii_upper(c)
        ||| is_ascii_alpha(p) && is_ascii_digit(c)
        ||| is_ascii_digit(p) && is_ascii_alpha(c)
        ||| is_ascii_upper(p) && is_ascii_upper(c) && i + 1 < chars.len() && is_ascii_lower(chars[i + 1])
    }
}

/// How normalizing ASCII text grows with each character: a space where a word
/// boundary falls before it, then the character lowercased if it is a letter
/// or a digit, else a space.
pub proof fn law_searchable_ascii_step(chars: Seq<char>, i: int)
    requires
        all_ascii(chars),
        0 <= i < chars.len(),
    ensures
        searchable_prefix(chars, i + 1) == searchable_prefix(chars, i) + (if ascii_word_break(chars, i) {
            seq![' ']
        } else {
            Seq::<char>::empty()
        }) + (if is_ascii_alpha(chars[i]) || is_ascii_digit(chars[i]) {
            seq![ascii_lower(chars[i])]
        } else {
            seq![' ']
        }),
{
    assert((chars[i] as u32) < 128);
    if i > 0 {
        assert((chars[i - 1] as u32) < 128);
    }
    if i + 1 < chars.len() {
        assert((chars[i + 1] as u32) < 128);
    }
    assert(boundary_before(chars, i) == ascii_word_break(chars, i));
}

/// Normalized ASCII text is made only of lowercase letters, digits and spaces,
/// has one or two characters for each input character, and normalizing it
/// again changes nothing.
pub proof fn law_searchable_text_is_settled(s: Seq<char>)
    requires
        all_ascii(s),
    ensures
        forall|i: int| 0 <= i < searchable(s).len() ==> search_text_char(#[trigger] searchable(s)[i]),
        s.len() <= searchable(s).len() <= 2 * s.len(),
        searchable(searchable(s)) == searchable(s),
{
    lemma_searchable_prefix_settles(s, s.len() as int);
    let r = searchable(s);
    lemma_settled_prefix_is_fixed(r, r.len() as int);
    assert(r.take(r.len() as int) =~= r);
}

/// Normalizes text for searching (see [`searchable`]).
pub fn normalize_searchable_text(input: &str) -> (out: String)
    ensures
        out@ == searchable(input@),
{
    let chars = to_chars(input);
    let mut normalized = String::new();
    let mut i: usize = 0;
    while i < chars.len()
        invariant
            i <= chars.len(),
            chars@ == input@,
            normalized@ == searchable_prefix(chars@, i as int),
        decreases chars.len() - i,
    {
        let c = chars[i];
        let ghost before = normalized@;
        let boundary = should_insert_boundary(i, c, chars.as_slice());
        if boundary {
            push_char(&mut normalized, ' ');
        }
        let ghost mid = normalized@;
        assert(mid == before + if boundary_before(chars@, i as int) {
            seq![' ']
        } else {
            Seq::<char>::empty()
        });
        if c == '/' || c == '\\' || c == '_' || c == '-' || c == '.' || c == ':' {
            push_char(&mut normalized, ' ');
        } else if char_is_alphanumeric(c) {
            let lower = char_to_lowercase(c);
            push_all(&mut normalized, &lower);
        } else {
            push_char(&mut normalized, ' ');
        }
        assert(normalized@ =~= mid + searchable_char(c));
        i += 1;
    }
    normalized
}

/// How one query token is normalized: a quoted phrase keeps its quotes around its
/// trimmed searchable text, a token with `*` or `?` stays as typed, anything else
/// becomes its trimmed searchable text.
pub open spec fn normalize_token_spec(t: Seq<char>) -> Seq<char> {
    if t.len() >= 2 && t[0] == '"' && t.last() == '"' {
        seq!['"'] + trim(searchable(t.subrange(1, t.len() - 1))) + seq!['"']
    } else if exists|i: int| 0 <= i < t.len() && (t[i] == '*' || t[i] == '?') {
        t
    } else {
        trim(searchable(t))
    }
}

fn trimmed_searchable(v: &Vec<char>, lo: usize, hi: usize) -> (out: String)
    requires
        lo <= hi <= v.len(),
    ensures
        out@ == trim(searchable(v@.subrange(lo as int, hi as int))),
{
    let inner = string_from_range(v, lo, hi);
    let norm = normalize_searchable_text(inner.as_str());
    let nv = to_chars(norm.as_str());
    let (a, b) = trim_bounds(&nv, 0, nv.len());
    assert(nv@.subrange(0, nv.len() as int) =~= nv@);
    string_from_range(&nv, a, b)
}

/// Normalizes one query token (see [`normalize_token_spec`]).
pub fn normalize_query_token(token: &str) -> (out: String)
    ensures
        out@ == normalize_token_spec(token@),
{
    let v = to_chars(token);
    if v.len() >= 2 && v[0] == '"' && v[v.len() - 1] == '"' {
        let inner = trimmed_searchable(&v, 1, v.len() - 1);
        let mut out = String::new();
        push_char(&mut out, '"');
        push_str(&mut out, inner.as_str());
        push_char(&mut out, '"');
        assert(out@ =~= seq!['"'] + inner@ + seq!['"']);
        return out;
    }
    let mut i: usize = 0;
    while i < v.len()
        invariant
            i <= v.len(),
            v@ == token@,
            !(token@.len() >= 2 && token@[0] == '"' && token@.last() == '"'),
            forall|k: int| 0 <= k < i ==> !(v@[k] == '*' || v@[k] == '?'),
        decreases v.len() - i,
    {
        if v[i] == '*' || v[i] == '?' {
            assert(0 <= i < token@.len() && (token@[i as int] == '*' || token@[i as int] == '?'));
            return from_chars(&v);
        }
        i += 1;
    }
    assert(v@.subrange(0, v.len() as int) =~= v@);
    trimmed_searchable(&v, 0, v.len())
}

/// The normalized tokens that are not empty.
pub open spec fn normalized_nonempty(tokens: Seq<Seq<char>>) -> Seq<Seq<char>>
    decreases tokens.len(),
{
    if tokens.len() == 0 {
        Seq::empty()
    } else {
        let r = normalized_nonempty(tokens.drop_last());
        let n = normalize_token_spec(tokens.last());
        if n.len() > 0 {
            r.push(n)
        } else {
            r
        }
    }
}

/// A whole query normalized: tokens normalized, empty ones dropped, joined by spaces.
pub open spec fn normalize_query_spec(s: Seq<char>) -> Seq<char> {
    join(normalized_nonempty(query_tokens(s)), " "@)
}

/// Normalizes a whole query (see [`normalize_query_spec`]).
pub fn normalize_query_string(input: &str) -> (out: String)
    ensures
        out@ == normalize_query_spec(input@),
{
    let tokens = split_query_tokens(input);
    let ghost ts = query_tokens(input@);
    let mut kept: Vec<String> = Vec::new();
    let mut i: usize = 0;
    assert(strs_view(kept@) =~= Seq::<Seq<char>>::empty());
    while i < tokens.len()
        invariant
            i <= tokens.len(),
            strs_view(tokens@) == ts,
            strs_view(kept@) == normalized_nonempty(ts.take(i as int)),
        decreases tokens.len() - i,
    {
        assert(ts.take(i + 1).drop_last() =~= ts.take(i as int));
        assert(ts[i as int] == tokens@[i as int]@);
        let n = normalize_query_token(tokens[i].as_str());
        if !n.as_str().is_empty() {
            push_string(&mut kept, n);
        }
        i += 1;
    }
    assert(ts.take(tokens.len() as int) =~= ts);
    join_strings(&kept, " ")
}

/// A search request: normalized free text plus filters and a hit limit.
#[derive(Debug, Clone)]
pub struct SearchRequest {
    pub query: String,
    pub repo_filters: Vec<String>,
    pub path_filters: Vec<String>,
    pub file_filters: Vec<String>,
    pub lang_filters: Vec<String>,
    pub limit: usize,
}

/// `Some(x)` as a one-element list, `None` as an empty one.
pub open spec fn opt_list(o: Option<Seq<char>>) -> Seq<Seq<char>> {
    match o {
        Some(x) => seq![x],
        None => Seq::empty(),
    }
}

pub open spec fn opt_view(o: Option<String>) -> Option<Seq<char>> {
    match o {
        Some(x) => Some(x@),
        None => None,
    }
}

/// Every filter value normalized as a query.
pub open spec fn normalize_all(v: Seq<Seq<char>>) -> Seq<Seq<char>> {
    v.map_values(|x: Seq<char>| normalize_query_spec(x))
}

fn append_opt(v: &mut Vec<String>, o: Option<String>)
    ensures
        strs_view(final(v)@) == strs_view(old(v)@) + opt_list(opt_view(o)),
{
    match o {
        Some(x) => {
            push_string(v, x);
        },
        None => {
            assert(strs_view(v@) =~= strs_view(v@) + Seq::<Seq<char>>::empty());
        },
    }
}

fn normalize_each(v: Vec<String>) -> (out: Vec<String>)
    ensures
        strs_view(out@) == normalize_all(strs_view(v@)),
{
    let mut out: Vec<String> = Vec::new();
    let mut i: usize = 0;
    while i < v.len()
        invariant
            i <= v.len(),
            strs_view(out@) == normalize_all(strs_view(v@).take(i as int)),
        decreases v.len() - i,
    {
        let n = normalize_query_string(v[i].as_str());
        push_string(&mut out, n);
        assert(normalize_all(strs_view(v@).take(i + 1)) =~= normalize_all(strs_view(v@).take(i as int)).push(
            normalize_query_spec(v@[i as int]@),
        ));
        i += 1;
    }
    assert(strs_view(v@).take(v.len() as int) =~= strs_view(v@));
    out
}

/// `r` is the request built from a typed query and explicit filters (see
/// [`parse_search_request`]).
pub open spec fn request_built_from(
    r: SearchRequest,
    query: Seq<char>,
    repo: Option<Seq<char>>,
    path: Option<Seq<char>>,
    file: Option<Seq<char>>,
    lang: Option<Seq<char>>,
    limit: usize,
) -> bool {
    let p = parts_fold(query_tokens(query));
    &&& r.query@ == normalize_query_spec(trim(join(p.terms, " "@)))
    &&& strs_view(r.repo_filters@) == p.repo + opt_list(repo)
    &&& strs_view(r.path_filters@) == normalize_all(p.path + opt_list(path))
    &&& strs_view(r.file_filters@) == normalize_all(p.file + opt_list(file))
    &&& strs_view(r.lang_filters@) == p.lang + opt_list(lang)
    &&& r.limit == limit
}

/// Builds a search request from a typed query and explicit filters: qualifiers in
/// the query come first, then the explicit filter; free text, path and file filters
/// are normalized, repository and language filters are kept as given.
pub fn parse_search_request(
    query: &str,
    repo: Option<String>,
    path: Option<String>,
    file: Option<String>,
    lang: Option<String>,
    limit: usize,
) -> (r: SearchRequest)
    ensures
        request_built_from(r, query@, opt_view(repo), opt_view(path), opt_view(file), opt_view(lang), limit),
{
    let mut parts = query_parts(query);
    append_opt(&mut parts.repo_filters, repo);
    append_opt(&mut parts.path_filters, path);
    append_opt(&mut parts.file_filters, file);
    append_opt(&mut parts.lang_filters, lang);
    let trimmed = crate::text::trim_string(parts.query.as_str());
    SearchRequest {
        query: normalize_query_string(trimmed.as_str()),
        repo_filters: parts.repo_filters,
        path_filters: normalize_each(parts.path_filters),
        file_filters: normalize_each(parts.file_filters),
        lang_filters: parts.lang_filters,
        limit,
    }
}

/// The FNV-1a hash of a byte string.
pub open spec fn fnv1a(bytes: Seq<u8>) -> u64
    decreases bytes.len(),
{
    if bytes.len() == 0 {
        0xcbf2_9ce4_8422_2325u64
    } else {
        (fnv1a(bytes.drop_last()) ^ (bytes.last() as u64)).wrapping_mul(0x0100_0000_01b3u64)
    }
}

/// The lowercase hex digit for `d < 16`.
pub open spec fn hex_digit(d: u64) -> char {
    if d < 10 {
        (48 + d) as char
    } else {
        (87 + d) as char
    }
}

/// The four bits of `h` that hex digit `i` (from the left) shows.
pub open spec fn nibble(h: u64, i: int) -> u64 {
    (h >> ((60 - 4 * i) as u64)) & 15u64
}

/// `h` as 16 lowercase hex digits (`format!("{h:016x}")`).
pub open spec fn hex16(h: u64) -> Seq<char> {
    Seq::new(16, |i: int| hex_digit(nibble(h, i)))
}

/// Formats `h` as 16 lowercase hex digits (see [`hex16`]).
pub fn format_hex16(h: u64) -> (out: String)
    ensures
        out@ == hex16(h),
{
    let mut out = String::new();
    let mut i: u64 = 0;
    while i < 16
        invariant
            i <= 16,
            out@ == hex16(h).take(i as int),
        decreases 16 - i,
    {
        let shift: u64 = 60 - 4 * i;
        let d: u64 = (h >> shift) & 15u64;
        assert(d < 16) by (bit_vector)
            requires
                d == (h >> shift) & 15u64,
        ;
        let c: char = if d < 10 {
            ((48 + d) as u8) as char
        } else {
            ((87 + d) as u8) as char
        };
        assert(c == hex_digit(nibble(h, i as int)));
        push_char(&mut out, c);
        assert(hex16(h).take(i + 1) =~= hex16(h).take(i as int).push(c));
        i += 1;
    }
    assert(hex16(h).take(16) =~= hex16(h));
    out
}

/// The workspace hash: FNV-1a over the UTF-8 bytes of `input`, in hex.
pub fn workspace_hash(input: &str) -> (out: String)
    ensures
        out@ == hex16(fnv1a(input.spec_bytes())),
{
    let bytes = input.as_bytes();
    let mut hash: u64 = 0xcbf2_9ce4_8422_2325u64;
    let mut i: usize = 0;
    while i < bytes.len()
        invariant
            i <= bytes@.len(),
            bytes@ == input.spec_bytes(),
            hash == fnv1a(bytes@.take(i as int)),
        decreases bytes.len() - i,
    {
        assert(bytes@.take(i + 1).drop_last() =~= bytes@.take(i as int));
        hash = hash ^ (bytes[i] as u64);
        hash = hash.wrapping_mul(0x0100_0000_01b3u64);
        i += 1;
    }
    assert(bytes@.take(bytes.len() as int) =~= bytes@);
    format_hex16(hash)
}

/// The text before and after the first `?` of a URL.
pub open spec fn split_url_spec(url: Seq<char>) -> (Seq<char>, Seq<char>) {
    if exists|i: int| 0 <= i < url.len() && url[i] == '?' {
        let i = choose|i: int|
            0 <= i < url.len() && url[i] == '?' && forall|j: int| 0 <= j < i ==> url[j] != '?';
        (url.take(i), url.skip(i + 1))
    } else {
        (url, Seq::empty())
    }
}

/// Splits a request URL into its path and its query string.
pub fn split_url(url: &str) -> (r: (String, String))
    ensures
        (r.0@, r.1@) == split_url_spec(url@),
{
    let v = to_chars(url);
    let mut i: usize = 0;
    while i < v.len()
        invariant
            i <= v.len(),
            v@ == url@,
            forall|j: int| 0 <= j < i ==> v@[j] != '?',
        decreases v.len() - i,
    {
        if v[i] == '?' {
            let ghost k = choose|k: int|
                0 <= k < v@.len() && v@[k] == '?' && forall|j: int| 0 <= j < k ==> v@[j] != '?';
            proof {
                assert(0 <= i < v@.len() && v@[i as int] == '?' && forall|j: int|
                    0 <= j < i ==> v@[j] != '?');
                if k < i {
                    assert(v@[k] != '?');
                } else if i < k {
                    assert(v@[i as int] != '?');
                }
            }
            let path = string_from_range(&v, 0, i);
            let query = string_from_range(&v, i + 1, v.len());
            assert(v@.subrange(0, i as int) =~= v@.take(i as int));
            assert(v@.subrange(i + 1, v.len() as int) =~= v@.skip(i + 1));
            return (path, query);
        }
        i += 1;
    }
    (from_chars(&v), String::new())
}


/// Where `c` occurs in `s`, it has a first occurrence.
pub proof fn lemma_first_char_exists(s: Seq<char>, c: char, i: int)
    requires
        0 <= i < s.len(),
        s[i] == c,
    ensures
        exists|m: int| 0 <= m < s.len() && s[m] == c && forall|j: int| 0 <= j < m ==> s[j] != c,
    decreases i,
{
    if exists|j: int| 0 <= j < i && s[j] == c {
        let j = choose|j: int| 0 <= j < i && s[j] == c;
        lemma_first_char_exists(s, c, j);
    } else {
        assert(s[i] == c && forall|j: int| 0 <= j < i ==> s[j] != c);
    }
}

/// A URL is its path and query string put back: with a `?` between them when
/// it had one, else the path alone, with an empty query.
pub proof fn law_split_url_round_trip(url: Seq<char>)
    ensures
        ({
            let (path, query) = split_url_spec(url);
            if url.contains('?') {
                url == path + seq!['?'] + query && !path.contains('?')
            } else {
                url == path && query.len() == 0
            }
        }),
{
    if exists|i: int| 0 <= i < url.len() && url[i] == '?' {
        let w = choose|w: int| 0 <= w < url.len() && url[w] == '?';
        lemma_first_char_exists(url, '?', w);
        let i = choose|i: int| 0 <= i < url.len() && url[i] == '?' && forall|j: int| 0 <= j < i ==> url[j] != '?';
        assert(url =~= url.take(i) + seq!['?'] + url.skip(i + 1));
        assert(url.contains('?'));
        assert forall|j: int| 0 <= j < url.take(i).len() implies url.take(i)[j] != '?' by {}
    } else {
        assert(!url.contains('?'));
    }
}

} // verus!

//! Human-readable names and slugs derived from file stems and identifiers.
use crate::text::{
    ascii_lower, char_to_ascii_lower, is_ascii_digit, is_ascii_lower, push_char, to_chars,
    trim, trim_bounds, trim_end_char, trim_start_char, string_from_range,
};
use crate::unicode::{char_is_uppercase, char_to_lowercase, unicode_is_uppercase, unicode_to_lowercase};
use vstd::prelude::*;

verus! {

/// State while humanizing: text so far, whether the previous character was a
/// lowercase letter or digit, whether it was a separator.
pub struct HumanizeState {
    pub out: Seq<char>,
    pub prev_lower_or_digit: bool,
    pub prev_separator: bool,
}

pub open spec fn humanize_step(st: HumanizeState, c: char) -> HumanizeState {
    if c == '_' || c == '-' {
        HumanizeState {
            out: if st.out.len() > 0 && !st.prev_separator { st.out.push(' ') } else { st.out },
            prev_lower_or_digit: false,
            prev_separator: true,
        }
    } else if unicode_is_uppercase(c) {
        HumanizeState {
            out: (if st.out.len() > 0 && st.prev_lower_or_digit && !st.prev_separator {
                st.out.push(' ')
            } else {
                st.out
            }) + unicode_to_lowercase(c),
            prev_lower_or_digit: false,
            prev_separator: false,
        }
    } else {
        HumanizeState {
            out: st.out.push(ascii_lower(c)),
            prev_lower_or_digit: is_ascii_lower(c) || is_ascii_digit(c),
            prev_separator: false,
        }
    }
}

pub open spec fn humanize_fold(s: Seq<char>) -> HumanizeState
    decreases s.len(),
{
    if s.len() == 0 {
        HumanizeState { out: Seq::empty(), prev_lower_or_digit: false, prev_separator: false }
    } else {
        humanize_step(humanize_fold(s.drop_last()), s.last())
    }
}

/// A file stem as lowercase words: `_` and `-` become single spaces, a space goes
/// before an uppercase letter that follows a lowercase letter or digit, and the
/// result is trimmed.
pub open spec fn humanize(s: Seq<char>) -> Seq<char> {
    trim(humanize_fold(s).out)
}

pub open spec fn slug_step(st: (Seq<char>, bool), c: char) -> (Seq<char>, bool) {
    let (slug, prev_dash) = st;
    if is_ascii_lower(c) || is_ascii_digit(c) {
        (slug.push(c), false)
    } else if c == '+' {
        ((if slug.len() > 0 && !prev_dash { slug.push('-') } else { slug }) + seq!['p', 'l', 'u', 's'], false)
    } else if c == '#' {
        ((if slug.len() > 0 && !prev_dash { slug.push('-') } else { slug }) + seq![
            's',
            'h',
            'a',
            'r',
            'p',
        ], false)
    } else if slug.len() > 0 && !prev_dash {
        (slug.push('-'), true)
    } else {
        (slug, prev_dash)
    }
}

pub open spec fn slug_fold(s: Seq<char>) -> (Seq<char>, bool)
    decreases s.len(),
{
    if s.len() == 0 {
        (Seq::empty(), false)
    } else {
        slug_step(slug_fold(s.drop_last()), s.last())
    }
}

/// `s` trimmed of `c` at both ends (`str::trim_matches(c)`).
pub open spec fn trim_char(s: Seq<char>, c: char) -> Seq<char> {
    trim_end_char(trim_start_char(s, c), c)
}

/// The slug of a name: its humanized form with runs of other characters turned
/// into single dashes, `+` spelled `plus`, `#` spelled `sharp`, and no dash at either end.
pub open spec fn slugify(s: Seq<char>) -> Seq<char> {
    trim_char(slug_fold(humanize(s)).0, '-')
}

/// Every character is a lowercase ASCII letter, a digit or `-`.
pub open spec fn slug_chars(s: Seq<char>) -> bool {
    forall|i: int| 0 <= i < s.len() ==> is_ascii_lower(#[trigger] s[i]) || is_ascii_digit(s[i]) || s[i] == '-'
}

/// No `-` follows another.
pub open spec fn no_double_dash(s: Seq<char>) -> bool {
    forall|i: int, j: int| 0 <= i && j == i + 1 && j < s.len() ==> !(#[trigger] s[i] == '-' && #[trigger] s[j] == '-')
}

/// A slug's shape: lowercase letters, digits and single dashes, with no dash
/// at either end.
pub open spec fn slug_shaped(s: Seq<char>) -> bool {
    &&& slug_chars(s)
    &&& no_double_dash(s)
    &&& s.len() > 0 ==> s[0] != '-' && s.last() != '-'
}

proof fn lemma_slug_fold(s: Seq<char>)
    ensures
        slug_chars(slug_fold(s).0),
        no_double_dash(slug_fold(s).0),
        slug_fold(s).1 <==> (slug_fold(s).0.len() > 0 && slug_fold(s).0.last() == '-'),
    decreases s.len(),
{
    if s.len() > 0 {
        lemma_slug_fold(s.drop_last());
        let (slug, prev) = slug_fold(s.drop_last());
        let c = s.last();
        let next = slug_fold(s).0;
        let base = if slug.len() > 0 && !prev {
            slug.push('-')
        } else {
            slug
        };
        assert(base.len() > 0 ==> base.last() == '-' || base.last() == slug.last());
        assert(slug_chars(base)) by {
            assert forall|i: int| 0 <= i < base.len() implies is_ascii_lower(#[trigger] base[i]) || is_ascii_digit(base[i]) || base[i] == '-' by {
                if i < slug.len() {
                    assert(base[i] == slug[i]);
                }
            }
        }
        assert(no_double_dash(base)) by {
            assert forall|i: int, j: int| 0 <= i && j == i + 1 && j < base.len() implies !(#[trigger] base[i] == '-'
                && #[trigger] base[j] == '-') by {
                if j < slug.len() {
                    assert(base[i] == slug[i] && base[j] == slug[j]);
                } else {
                    assert(base[i] == slug[i]);
                }
            }
        }
        if c == '+' || c == '#' {
            let word = if c == '+' {
                seq!['p', 'l', 'u', 's']
            } else {
                seq!['s', 'h', 'a', 'r', 'p']
            };
            assert(next == base + word);
            assert forall|i: int| 0 <= i < next.len() implies is_ascii_lower(#[trigger] next[i]) || is_ascii_digit(next[i]) || next[i] == '-' by {
                if i < base.len() {
                    assert(next[i] == base[i]);
                } else {
                    assert(next[i] == word[i - base.len()]);
                }
            }
            assert forall|i: int, j: int| 0 <= i && j == i + 1 && j < next.len() implies !(#[trigger] next[i] == '-'
                && #[trigger] next[j] == '-') by {
                if j < base.len() {
                    assert(next[i] == base[i] && next[j] == base[j]);
                } else {
                    assert(next[j] == word[j - base.len()]);
                }
            }
            assert(next.last() == word.last());
        } else if is_ascii_lower(c) || is_ascii_digit(c) {
            assert(next == slug.push(c));
            assert forall|i: int| 0 <= i < next.len() implies is_ascii_lower(#[trigger] next[i]) || is_ascii_digit(next[i]) || next[i] == '-' by {
                if i < slug.len() {
                    assert(next[i] == slug[i]);
                }
            }
            assert forall|i: int, j: int| 0 <= i && j == i + 1 && j < next.len() implies !(#[trigger] next[i] == '-'
                && #[trigger] next[j] == '-') by {
                if j < slug.len() {
                    assert(next[i] == slug[i] && next[j] == slug[j]);
                }
            }
        } else {
            assert(next == base);
        }
    }
}

proof fn lemma_trim_start_char(s: Seq<char>, c: char)
    ensures
        exists|k: int| 0 <= k <= s.len() && trim_start_char(s, c) == s.skip(k),
        trim_start_char(s, c).len() > 0 ==> trim_start_char(s, c)[0] != c,
    decreases s.len(),
{
    if s.len() > 0 && s[0] == c {
        lemma_trim_start_char(s.drop_first(), c);
        let k = choose|k: int| 0 <= k <= s.drop_first().len() && trim_start_char(s.drop_first(), c) == s.drop_first().skip(k);
        assert(s.drop_first().skip(k) =~= s.skip(k + 1));
    } else {
        assert(s.skip(0) =~= s);
    }
}

proof fn lemma_trim_end_char(s: Seq<char>, c: char)
    ensures
        exists|k: int| 0 <= k <= s.len() && trim_end_char(s, c) == s.take(k),
        trim_end_char(s, c).len() > 0 ==> trim_end_char(s, c).last() != c,
    decreases s.len(),
{
    if s.len() > 0 && s.last() == c {
        lemma_trim_end_char(s.drop_last(), c);
        let k = choose|k: int| 0 <= k <= s.drop_last().len() && trim_end_char(s.drop_last(), c) == s.drop_last().take(k);
        assert(s.drop_last().take(k) =~= s.take(k));
    } else {
        assert(s.take(s.len() as int) =~= s);
    }
}

/// A slug is made of lowercase letters, digits and single dashes, with no dash
/// at either end, whatever the name.
pub proof fn law_slug_shape(name: Seq<char>)
    ensures
        slug_shaped(slugify(name)),
{
    let raw = slug_fold(humanize(name)).0;
    lemma_slug_fold(humanize(name));
    lemma_trim_start_char(raw, '-');
    let a = trim_start_char(raw, '-');
    let k = choose|k: int| 0 <= k <= raw.len() && a == raw.skip(k);
    lemma_trim_end_char(a, '-');
    let b = trim_end_char(a, '-');
    let m = choose|m: int| 0 <= m <= a.len() && b == a.take(m);
    assert(slugify(name) == b);
    assert forall|i: int| 0 <= i < b.len() implies is_ascii_lower(#[trigger] b[i]) || is_ascii_digit(b[i]) || b[i] == '-' by {
        assert(b[i] == raw[i + k]);
    }
    assert forall|i: int, j: int| 0 <= i && j == i + 1 && j < b.len() implies !(#[trigger] b[i] == '-' && #[trigger] b[j]
        == '-') by {
        assert(b[i] == raw[i + k] && b[j] == raw[j + k]);
    }
    if b.len() > 0 {
        assert(b[0] == a[0]);
    }
}

/// Turns a file stem into lowercase words (see [`humanize`]).
pub fn humanize_name(input: &str) -> (out: String)
    ensures
        out@ == humanize(input@),
{
    let v = to_chars(input);
    let mut out: Vec<char> = Vec::new();
    let mut prev_lower_or_digit = false;
    let mut prev_separator = false;
    let mut i: usize = 0;
    while i < v.len()
        invariant
            i <= v.len(),
            v@ == input@,
            humanize_fold(v@.take(i as int)) == (HumanizeState {
                out: out@,
                prev_lower_or_digit,
                prev_separator,
            }),
        decreases v.len() - i,
    {
        let c = v[i];
        assert(v@.take(i + 1).drop_last() =~= v@.take(i as int));
        if c == '_' || c == '-' {
            if out.len() > 0 && !prev_separator {
                out.push(' ');
            }
            prev_lower_or_digit = false;
            prev_separator = true;
        } else if char_is_uppercase(c) {
            if out.len() > 0 && prev_lower_or_digit && !prev_separator {
                out.push(' ');
            }
            let lower = char_to_lowercase(c);
            let ghost before = out@;
            let mut j: usize = 0;
            while j < lower.len()
                invariant
                    j <= lower.len(),
                    out@ == before + lower@.take(j as int),
                decreases lower.len() - j,
            {
                out.push(lower[j]);
                assert(before + lower@.take(j + 1) =~= (before + lower@.take(j as int)).push(
                    lower@[j as int],
                ));
                j += 1;
            }
            assert(lower@.take(lower.len() as int) =~= lower@);
            prev_lower_or_digit = false;
            prev_separator = false;
        } else {
            out.push(char_to_ascii_lower(c));
            prev_lower_or_digit = ('a' <= c && c <= 'z') || ('0' <= c && c <= '9');
            prev_separator = false;
        }
        i += 1;
    }
    assert(v@.take(v.len() as int) =~= v@);
    let (lo, hi) = trim_bounds(&out, 0, out.len());
    assert(out@.subrange(0, out.len() as int) =~= out@);
    string_from_range(&out, lo, hi)
}

/// Pushes every character of a literal word.
fn push_word(out: &mut Vec<char>, word: &str)
    ensures
        final(out)@ == old(out)@ + word@,
{
    let w = to_chars(word);
    let mut i: usize = 0;
    while i < w.len()
        invariant
            i <= w.len(),
            w@ == word@,
            out@ == old(out)@ + w@.take(i as int),
        decreases w.len() - i,
    {
        out.push(w[i]);
        assert(old(out)@ + w@.take(i + 1) =~= (old(out)@ + w@.take(i as int)).push(w@[i as int]));
        i += 1;
    }
    assert(w@.take(w.len() as int) =~= w@);
}

/// The bounds of `v[..]` with `c` trimmed from both ends.
fn trim_char_bounds(v: &Vec<char>, c: char) -> (r: (usize, usize))
    ensures
        r.0 <= r.1 <= v.len(),
        v@.subrange(r.0 as int, r.1 as int) == trim_char(v@, c),
{
    let mut lo: usize = 0;
    assert(v@.subrange(0, v.len() as int) =~= v@);
    while lo < v.len() && v[lo] == c
        invariant
            lo <= v.len(),
            trim_start_char(v@, c) == trim_start_char(v@.subrange(lo as int, v.len() as int), c),
        decreases v.len() - lo,
    {
        assert(v@.subrange(lo as int, v.len() as int).drop_first() =~= v@.subrange(
            lo + 1,
            v.len() as int,
        ));
        lo += 1;
    }
    let mut hi: usize = v.len();
    while hi > lo && v[hi - 1] == c
        invariant
            lo <= hi <= v.len(),
            trim_end_char(v@.subrange(lo as int, v.len() as int), c) == trim_end_char(
                v@.subrange(lo as int, hi as int),
                c,
            ),
        decreases hi - lo,
    {
        assert(v@.subrange(lo as int, hi as int).drop_last() =~= v@.subrange(lo as int, hi - 1));
        hi -= 1;
    }
    (lo, hi)
}

/// The slug of a file stem (see [`slugify`]).
pub fn slugify_name(input: &str) -> (out: String)
    ensures
        out@ == slugify(input@),
{
    let human = humanize_name(input);
    let v = to_chars(human.as_str());
    let mut slug: Vec<char> = Vec::new();
    let mut prev_dash = false;
    let mut i: usize = 0;
    while i < v.len()
        invariant
            i <= v.len(),
            v@ == humanize(input@),
            slug_fold(v@.take(i as int)) == (slug@, prev_dash),
        decreases v.len() - i,
    {
        let c = v[i];
        assert(v@.take(i + 1).drop_last() =~= v@.take(i as int));
        if ('a' <= c && c <= 'z') || ('0' <= c && c <= '9') {
            slug.push(c);
            prev_dash = false;
        } else if c == '+' {
            if slug.len() > 0 && !prev_dash {
                slug.push('-');
            }
            push_word(&mut slug, "plus");
            proof { reveal_strlit("plus"); }
            prev_dash = false;
        } else if c == '#' {
            if slug.len() > 0 && !prev_dash {
                slug.push('-');
            }
            push_word(&mut slug, "sharp");
            proof { reveal_strlit("sharp"); }
            prev_dash = false;
        } else if slug.len() > 0 && !prev_dash {
            slug.push('-');
            prev_dash = true;
        }
        i += 1;
    }
    assert(v@.take(v.len() as int) =~= v@);
    let (lo, hi) = trim_char_bounds(&slug, '-');
    string_from_range(&slug, lo, hi)
}

} // verus!

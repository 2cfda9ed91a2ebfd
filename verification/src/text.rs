//! Character-level building blocks: whitespace, trimming, ASCII case,
//! splitting and joining, each stated over the character sequence of a string.
use vstd::prelude::*;

verus! {

/// Whether `c` has the Unicode `White_Space` property (what `char::is_whitespace` tests).
pub open spec fn is_whitespace(c: char) -> bool {
    let u = c as u32;
    ||| 0x09 <= u <= 0x0d
    ||| u == 0x20
    ||| u == 0x85
    ||| u == 0xa0
    ||| u == 0x1680
    ||| 0x2000 <= u <= 0x200a
    ||| u == 0x2028
    ||| u == 0x2029
    ||| u == 0x202f
    ||| u == 0x205f
    ||| u == 0x3000
}

pub open spec fn is_ascii_upper(c: char) -> bool {
    'A' <= c <= 'Z'
}

pub open spec fn is_ascii_lower(c: char) -> bool {
    'a' <= c <= 'z'
}

pub open spec fn is_ascii_digit(c: char) -> bool {
    '0' <= c <= '9'
}

pub open spec fn is_ascii_alpha(c: char) -> bool {
    is_ascii_upper(c) || is_ascii_lower(c)
}

pub open spec fn is_ascii_alnum(c: char) -> bool {
    is_ascii_alpha(c) || is_ascii_digit(c)
}

/// `char::to_ascii_lowercase`.
pub open spec fn ascii_lower(c: char) -> char {
    if is_ascii_upper(c) {
        ((c as u32) + 32) as char
    } else {
        c
    }
}

/// `char::to_ascii_uppercase`.
pub open spec fn ascii_upper(c: char) -> char {
    if is_ascii_lower(c) {
        ((c as u32) - 32) as char
    } else {
        c
    }
}

/// `str::to_ascii_lowercase`.
pub open spec fn lower_seq(s: Seq<char>) -> Seq<char> {
    s.map_values(|c: char| ascii_lower(c))
}

/// `str::trim_start`.
pub open spec fn trim_start(s: Seq<char>) -> Seq<char>
    decreases s.len(),
{
    if s.len() > 0 && is_whitespace(s[0]) {
        trim_start(s.drop_first())
    } else {
        s
    }
}

/// `str::trim_end`.
pub open spec fn trim_end(s: Seq<char>) -> Seq<char>
    decreases s.len(),
{
    if s.len() > 0 && is_whitespace(s.last()) {
        trim_end(s.drop_last())
    } else {
        s
    }
}

/// `str::trim`.
pub open spec fn trim(s: Seq<char>) -> Seq<char> {
    trim_end(trim_start(s))
}

/// `str::trim_end_matches(c)` for a single character.
pub open spec fn trim_end_char(s: Seq<char>, c: char) -> Seq<char>
    decreases s.len(),
{
    if s.len() > 0 && s.last() == c {
        trim_end_char(s.drop_last(), c)
    } else {
        s
    }
}

/// `str::trim_start_matches(c)` for a single character.
pub open spec fn trim_start_char(s: Seq<char>, c: char) -> Seq<char>
    decreases s.len(),
{
    if s.len() > 0 && s[0] == c {
        trim_start_char(s.drop_first(), c)
    } else {
        s
    }
}

/// Whether `s` begins with `p`.
pub open spec fn has_prefix(s: Seq<char>, p: Seq<char>) -> bool {
    p.len() <= s.len() && s.subrange(0, p.len() as int) == p
}

/// Whether `p` occurs in `s` starting at position `i`.
pub open spec fn occurs_at(s: Seq<char>, p: Seq<char>, i: int) -> bool {
    0 <= i && i + p.len() <= s.len() && s.subrange(i, i + p.len()) == p
}

/// Whether `p` occurs anywhere in `s` (`str::contains`).
pub open spec fn contains_seq(s: Seq<char>, p: Seq<char>) -> bool {
    exists|i: int| occurs_at(s, p, i)
}

/// The fields of `s` separated by `sep` (`str::split` with a character pattern).
pub open spec fn split_on(s: Seq<char>, sep: char) -> Seq<Seq<char>>
    decreases s.len(),
{
    if s.len() == 0 {
        seq![Seq::<char>::empty()]
    } else {
        let r = split_on(s.drop_last(), sep);
        if s.last() == sep {
            r.push(Seq::<char>::empty())
        } else {
            r.update(r.len() - 1, r.last().push(s.last()))
        }
    }
}

/// `parts` joined with `sep` between neighbours (`[T]::join`).
pub open spec fn join(parts: Seq<Seq<char>>, sep: Seq<char>) -> Seq<char>
    decreases parts.len(),
{
    if parts.len() == 0 {
        Seq::<char>::empty()
    } else if parts.len() == 1 {
        parts[0]
    } else {
        join(parts.drop_last(), sep) + sep + parts.last()
    }
}

/// A line with one trailing carriage return removed.
pub open spec fn strip_cr(line: Seq<char>) -> Seq<char> {
    if line.len() > 0 && line.last() == '\r' {
        line.drop_last()
    } else {
        line
    }
}

/// `str::lines`: split at `\n`, drop one trailing empty piece, strip a `\r` before each `\n`.
pub open spec fn lines(s: Seq<char>) -> Seq<Seq<char>> {
    let parts = split_on(s, '\n');
    let kept = if parts.last().len() == 0 { parts.drop_last() } else { parts };
    kept.map_values(|l: Seq<char>| strip_cr(l))
}

pub proof fn lemma_split_on_nonempty(s: Seq<char>, sep: char)
    ensures
        split_on(s, sep).len() >= 1,
    decreases s.len(),
{
    if s.len() > 0 {
        lemma_split_on_nonempty(s.drop_last(), sep);
    }
}

/// Compares two strings character by character (`str == str`).
#[verifier::external_body]
pub(crate) fn str_eq(a: &str, b: &str) -> (r: bool)
    ensures
        r == (a@ == b@),
{
    a == b
}

/// Appends one character to a string (`String::push`).
#[verifier::external_body]
pub(crate) fn push_char(s: &mut String, c: char)
    ensures
        final(s)@ == old(s)@.push(c),
{
    s.push(c);
}

/// Appends a string slice (`String::push_str`).
#[verifier::external_body]
pub(crate) fn push_str(s: &mut String, t: &str)
    ensures
        final(s)@ == old(s)@ + t@,
{
    s.push_str(t);
}

pub fn char_is_whitespace(c: char) -> (r: bool)
    ensures
        r == is_whitespace(c),
{
    let u = c as u32;
    (0x09 <= u && u <= 0x0d) || u == 0x20 || u == 0x85 || u == 0xa0 || u == 0x1680 || (0x2000
        <= u && u <= 0x200a) || u == 0x2028 || u == 0x2029 || u == 0x202f || u == 0x205f || u
        == 0x3000
}

pub fn char_to_ascii_lower(c: char) -> (r: char)
    ensures
        r == ascii_lower(c),
{
    if 'A' <= c && c <= 'Z' {
        let b = (c as u8) + 32;
        assert((c as u8) as u32 == c as u32);
        b as char
    } else {
        c
    }
}

/// The characters of a string slice, in order.
pub fn to_chars(s: &str) -> (out: Vec<char>)
    ensures
        out@ == s@,
{
    let mut out: Vec<char> = Vec::new();
    for c in it: s.chars()
        invariant
            out@ == it.seq().take(it.index() as int),
    {
        out.push(c);
    }
    out
}

/// The string made of `v[lo..hi]`.
pub fn string_from_range(v: &Vec<char>, lo: usize, hi: usize) -> (out: String)
    requires
        lo <= hi <= v.len(),
    ensures
        out@ == v@.subrange(lo as int, hi as int),
{
    let mut out = String::new();
    let mut i: usize = lo;
    while i < hi
        invariant
            lo <= i <= hi <= v.len(),
            out@ == v@.subrange(lo as int, i as int),
        decreases hi - i,
    {
        push_char(&mut out, v[i]);
        assert(v@.subrange(lo as int, i as int).push(v@[i as int]) =~= v@.subrange(
            lo as int,
            i + 1,
        ));
        i += 1;
    }
    out
}

/// The string made of all of `v`.
pub fn from_chars(v: &Vec<char>) -> (out: String)
    ensures
        out@ == v@,
{
    let out = string_from_range(v, 0, v.len());
    assert(v@.subrange(0, v.len() as int) =~= v@);
    out
}

/// The bounds `lo..hi` of `v[from..to]` with surrounding whitespace removed.
pub fn trim_bounds(v: &Vec<char>, from: usize, to: usize) -> (r: (usize, usize))
    requires
        from <= to <= v.len(),
    ensures
        from <= r.0 <= r.1 <= to,
        v@.subrange(r.0 as int, r.1 as int) == trim(v@.subrange(from as int, to as int)),
{
    let mut lo = from;
    while lo < to && char_is_whitespace(v[lo])
        invariant
            from <= lo <= to <= v.len(),
            trim_start(v@.subrange(from as int, to as int)) == trim_start(
                v@.subrange(lo as int, to as int),
            ),
        decreases to - lo,
    {
        assert(v@.subrange(lo as int, to as int).drop_first() =~= v@.subrange(
            lo + 1,
            to as int,
        ));
        lo += 1;
    }
    let mut hi = to;
    while hi > lo && char_is_whitespace(v[hi - 1])
        invariant
            from <= lo <= hi <= to <= v.len(),
            trim_end(v@.subrange(lo as int, to as int)) == trim_end(
                v@.subrange(lo as int, hi as int),
            ),
        decreases hi - lo,
    {
        assert(v@.subrange(lo as int, hi as int).drop_last() =~= v@.subrange(
            lo as int,
            hi - 1,
        ));
        hi -= 1;
    }
    (lo, hi)
}

/// `str::trim`, as an owned string.
pub fn trim_string(s: &str) -> (out: String)
    ensures
        out@ == trim(s@),
{
    let v = to_chars(s);
    let (lo, hi) = trim_bounds(&v, 0, v.len());
    assert(v@.subrange(0, v.len() as int) =~= v@);
    string_from_range(&v, lo, hi)
}

/// `str::to_ascii_lowercase`.
pub fn to_ascii_lowercase(s: &str) -> (out: String)
    ensures
        out@ == lower_seq(s@),
{
    let v = to_chars(s);
    let mut out = String::new();
    let mut i: usize = 0;
    while i < v.len()
        invariant
            i <= v.len(),
            v@ == s@,
            out@ == lower_seq(v@.take(i as int)),
        decreases v.len() - i,
    {
        let c = char_to_ascii_lower(v[i]);
        push_char(&mut out, c);
        assert(lower_seq(v@.take(i as int)).push(c) =~= lower_seq(v@.take(i + 1)));
        i += 1;
    }
    assert(v@.take(v.len() as int) =~= v@);
    out
}



/// Whether `p` occurs in `v` at position `i`.
fn occurs_in(v: &Vec<char>, p: &Vec<char>, i: usize) -> (r: bool)
    requires
        i <= v@.len(),
    ensures
        r == occurs_at(v@, p@, i as int),
{
    let n = v.len();
    if p.len() > n - i {
        return false;
    }
    let mut k: usize = 0;
    while k < p.len()
        invariant
            k <= p@.len(),
            n == v@.len(),
            i <= v@.len(),
            i + p@.len() <= v@.len(),
            forall|j: int| 0 <= j < k ==> v@[i + j] == p@[j],
        decreases p.len() - k,
    {
        assert(i + k < v@.len());
        assert(v@.len() == v.len());
        if v[i + k] != p[k] {
            assert(v@.subrange(i as int, i + p@.len())[k as int] != p@[k as int]);
            return false;
        }
        k += 1;
    }
    assert(v@.subrange(i as int, i + p@.len()) =~= p@);
    true
}

/// `str::starts_with` with a string pattern.
pub fn str_starts_with(s: &str, p: &str) -> (r: bool)
    ensures
        r == has_prefix(s@, p@),
{
    let v = to_chars(s);
    let pv = to_chars(p);
    occurs_in(&v, &pv, 0)
}

/// `str::contains` with a string pattern.
pub fn str_contains(s: &str, p: &str) -> (r: bool)
    ensures
        r == contains_seq(s@, p@),
{
    let v = to_chars(s);
    let pv = to_chars(p);
    let mut i: usize = 0;
    while i < v.len()
        invariant
            i <= v@.len(),
            v@ == s@,
            pv@ == p@,
            forall|j: int| 0 <= j < i ==> !occurs_at(s@, p@, j),
        decreases v.len() - i,
    {
        if occurs_in(&v, &pv, i) {
            return true;
        }
        i += 1;
    }
    occurs_in(&v, &pv, i)
}

/// `str::trim_start`, as an owned string.
pub fn trim_start_string(s: &str) -> (out: String)
    ensures
        out@ == trim_start(s@),
{
    let v = to_chars(s);
    let mut lo: usize = 0;
    assert(v@.subrange(0, v@.len() as int) =~= v@);
    while lo < v.len() && char_is_whitespace(v[lo])
        invariant
            lo <= v@.len(),
            v@ == s@,
            trim_start(s@) == trim_start(v@.subrange(lo as int, v@.len() as int)),
        decreases v.len() - lo,
    {
        assert(v@.subrange(lo as int, v@.len() as int).drop_first() =~= v@.subrange(lo + 1, v@.len() as int));
        lo += 1;
    }
    string_from_range(&v, lo, v.len())
}

/// The character sequences of a list of strings.
pub open spec fn strs_view(v: Seq<String>) -> Seq<Seq<char>> {
    v.map_values(|s: String| s@)
}

/// `str::split(sep)` collected into owned strings.
pub fn split_char(s: &str, sep: char) -> (out: Vec<String>)
    ensures
        strs_view(out@) == split_on(s@, sep),
{
    let v = to_chars(s);
    let mut parts: Vec<String> = Vec::new();
    let mut cur: Vec<char> = Vec::new();
    let mut i: usize = 0;
    while i < v.len()
        invariant
            i <= v.len(),
            v@ == s@,
            split_on(v@.take(i as int), sep) == strs_view(parts@).push(cur@),
        decreases v.len() - i,
    {
        let c = v[i];
        assert(v@.take(i + 1).drop_last() =~= v@.take(i as int));
        if c == sep {
            let piece = from_chars(&cur);
            let ghost old_parts = parts@;
            parts.push(piece);
            assert(strs_view(parts@) =~= strs_view(old_parts).push(cur@));
            cur = Vec::new();
            assert(split_on(v@.take(i + 1), sep) =~= strs_view(parts@).push(cur@));
        } else {
            let ghost old_cur = cur@;
            cur.push(c);
            assert(split_on(v@.take(i + 1), sep) =~= strs_view(parts@).push(cur@));
        }
        i += 1;
    }
    assert(v@.take(v.len() as int) =~= v@);
    let last = from_chars(&cur);
    let ghost old_parts = parts@;
    parts.push(last);
    assert(strs_view(parts@) =~= strs_view(old_parts).push(cur@));
    parts
}

/// Removes one trailing `\r`.
pub fn strip_cr_string(line: String) -> (out: String)
    ensures
        out@ == strip_cr(line@),
{
    let v = to_chars(line.as_str());
    if v.len() > 0 && v[v.len() - 1] == '\r' {
        let out = string_from_range(&v, 0, v.len() - 1);
        assert(v@.subrange(0, v.len() - 1) =~= v@.drop_last());
        out
    } else {
        line
    }
}

/// `str::lines` collected into owned strings.
pub fn lines_of(s: &str) -> (out: Vec<String>)
    ensures
        strs_view(out@) == lines(s@),
{
    let parts = split_char(s, '\n');
    proof {
        lemma_split_on_nonempty(s@, '\n');
    }
    let n = parts.len();
    let keep = if parts[n - 1].as_str().is_empty() {
        n - 1
    } else {
        n
    };
    let ghost kept = if split_on(s@, '\n').last().len() == 0 {
        split_on(s@, '\n').drop_last()
    } else {
        split_on(s@, '\n')
    };
    assert(kept.len() == keep);
    let mut out: Vec<String> = Vec::new();
    let mut i: usize = 0;
    while i < keep
        invariant
            i <= keep <= n == parts.len(),
            kept.len() == keep,
            forall|k: int| 0 <= k < keep ==> #[trigger] kept[k] == parts@[k]@,
            strs_view(out@) == kept.take(i as int).map_values(|l: Seq<char>| strip_cr(l)),
        decreases keep - i,
    {
        let line = strip_cr_string(parts[i].clone());
        assert(kept[i as int] == parts@[i as int]@);
        let ghost old_out = out@;
        let ghost line_view = line@;
        out.push(line);
        assert(strs_view(out@) =~= strs_view(old_out).push(line_view));
        assert(kept.take(i + 1).map_values(|l: Seq<char>| strip_cr(l)) =~= kept.take(
            i as int,
        ).map_values(|l: Seq<char>| strip_cr(l)).push(strip_cr(kept[i as int])));
        i += 1;
    }
    assert(kept.take(keep as int) =~= kept);
    out
}

/// `parts` joined with `sep` (`[String]::join`).
pub fn join_strings(parts: &Vec<String>, sep: &str) -> (out: String)
    ensures
        out@ == join(strs_view(parts@), sep@),
{
    let mut out = String::new();
    let mut i: usize = 0;
    while i < parts.len()
        invariant
            i <= parts.len(),
            out@ == join(strs_view(parts@).take(i as int), sep@),
        decreases parts.len() - i,
    {
        let ghost prev = strs_view(parts@).take(i as int);
        assert(strs_view(parts@).take(i + 1).drop_last() =~= prev);
        if i > 0 {
            push_str(&mut out, sep);
        }
        push_str(&mut out, parts[i].as_str());
        proof {
            if i == 0 {
                assert(strs_view(parts@).take(1) =~= seq![parts@[0]@]);
                assert(out@ =~= parts@[0]@);
            }
        }
        i += 1;
    }
    assert(strs_view(parts@).take(parts.len() as int) =~= strs_view(parts@));
    out
}

/// The numeric value of an ASCII digit.
pub open spec fn digit_value(c: char) -> nat {
    ((c as u32) - ('0' as u32)) as nat
}

pub open spec fn all_digits(s: Seq<char>) -> bool {
    forall|i: int| 0 <= i < s.len() ==> is_ascii_digit(#[trigger] s[i])
}

/// The value of a string of decimal digits.
pub open spec fn digits_value(s: Seq<char>) -> nat
    decreases s.len(),
{
    if s.len() == 0 {
        0
    } else {
        digits_value(s.drop_last()) * 10 + digit_value(s.last())
    }
}

/// The digits of an unsigned number text, after an optional leading `+`.
pub open spec fn unsigned_digits(s: Seq<char>) -> Seq<char> {
    if s.len() > 0 && s[0] == '+' {
        s.drop_first()
    } else {
        s
    }
}

/// What `str::parse::<usize>` gives: an optional `+`, then at least one ASCII
/// digit and nothing else, with a value that fits in `usize`.
pub open spec fn parse_usize(s: Seq<char>) -> Option<usize> {
    let d = unsigned_digits(s);
    if d.len() > 0 && all_digits(d) && digits_value(d) <= usize::MAX {
        Some(digits_value(d) as usize)
    } else {
        None
    }
}

/// The same as [`parse_usize`] for `u64`.
pub open spec fn parse_u64(s: Seq<char>) -> Option<u64> {
    let d = unsigned_digits(s);
    if d.len() > 0 && all_digits(d) && digits_value(d) <= u64::MAX {
        Some(digits_value(d) as u64)
    } else {
        None
    }
}

/// `str::parse::<u64>`, returning `None` on failure.
pub fn parse_u64_str(s: &str) -> (r: Option<u64>)
    ensures
        r == parse_u64(s@),
{
    let v = to_chars(s);
    let start: usize = if v.len() > 0 && v[0] == '+' {
        1
    } else {
        0
    };
    let ghost d = unsigned_digits(s@);
    assert(d =~= v@.subrange(start as int, v.len() as int));
    if start == v.len() {
        return None;
    }
    let mut acc: u64 = 0;
    let mut overflow = false;
    let mut i: usize = start;
    while i < v.len()
        invariant
            start <= i <= v.len(),
            v@ == s@,
            d == unsigned_digits(s@),
            d == v@.subrange(start as int, v.len() as int),
            all_digits(d.take(i - start)),
            !overflow ==> acc as nat == digits_value(d.take(i - start)),
            overflow ==> digits_value(d.take(i - start)) > u64::MAX,
        decreases v.len() - i,
    {
        let c = v[i];
        if !('0' <= c && c <= '9') {
            assert(d[(i - start) as int] == c);
            assert(!all_digits(d));
            return None;
        }
        let ghost before = d.take(i - start);
        assert(d.take(i - start + 1).drop_last() =~= before);
        assert(d.take(i - start + 1).last() == c);
        let dv = (c as u32 - '0' as u32) as u64;
        if !overflow {
            if acc > (u64::MAX - dv) / 10 {
                overflow = true;
                assert(acc * 10 + dv > u64::MAX) by (nonlinear_arith)
                    requires
                        acc > (u64::MAX - dv) / 10,
                        dv <= 9,
                ;
            } else {
                assert(acc * 10 + dv <= u64::MAX) by (nonlinear_arith)
                    requires
                        acc <= (u64::MAX - dv) / 10,
                        dv <= 9,
                ;
                acc = acc * 10 + dv;
            }
        } else {
            assert(digits_value(d.take(i - start + 1)) >= digits_value(before));
        }
        i += 1;
    }
    assert(d.take(i - start) =~= d);
    if overflow {
        None
    } else {
        Some(acc)
    }
}

/// `str::parse::<usize>`, returning `None` on failure.
pub fn parse_usize_str(s: &str) -> (r: Option<usize>)
    ensures
        r == parse_usize(s@),
{
    match parse_u64_str(s) {
        Some(n) => {
            if n <= usize::MAX as u64 {
                Some(n as usize)
            } else {
                None
            }
        },
        None => {
            proof {
                let d = unsigned_digits(s@);
                if d.len() > 0 && all_digits(d) && digits_value(d) <= usize::MAX {
                    assert(usize::MAX <= u64::MAX);
                }
            }
            None
        },
    }
}

/// The decimal digits of `n`.
pub open spec fn decimal(n: nat) -> Seq<char>
    decreases n,
{
    if n < 10 {
        seq![(48 + n) as char]
    } else {
        decimal(n / 10).push((48 + n % 10) as char)
    }
}

/// Formats a number in decimal (`n.to_string()`).
pub fn decimal_string(n: usize) -> (s: String)
    ensures
        s@ == decimal(n as nat),
    decreases n,
{
    if n < 10 {
        let mut s = String::new();
        push_char(&mut s, ((48 + n) as u8) as char);
        s
    } else {
        let mut s = decimal_string(n / 10);
        push_char(&mut s, ((48 + n % 10) as u8) as char);
        s
    }
}

/// `str::trim_end`, as an owned string.
pub fn trim_end_string(s: &str) -> (out: String)
    ensures
        out@ == trim_end(s@),
{
    let v = to_chars(s);
    let mut hi = v.len();
    assert(v@.subrange(0, v@.len() as int) =~= v@);
    while hi > 0 && char_is_whitespace(v[hi - 1])
        invariant
            hi <= v@.len(),
            v@ == s@,
            trim_end(s@) == trim_end(v@.subrange(0, hi as int)),
        decreases hi,
    {
        assert(v@.subrange(0, hi as int).drop_last() =~= v@.subrange(0, hi - 1));
        hi -= 1;
    }
    string_from_range(&v, 0, hi)
}

/// The pieces of `s` between the occurrences of `sep`, found from the left
/// without overlap (`str::split` with a string pattern, for a non-empty `sep`).
pub open spec fn split_str(s: Seq<char>, sep: Seq<char>) -> Seq<Seq<char>>
    recommends
        sep.len() > 0,
    decreases s.len(),
{
    if s.len() == 0 || sep.len() == 0 {
        seq![s]
    } else if has_prefix(s, sep) {
        seq![Seq::<char>::empty()] + split_str(s.skip(sep.len() as int), sep)
    } else {
        let rest = split_str(s.drop_first(), sep);
        rest.update(0, seq![s[0]] + rest[0])
    }
}

pub proof fn lemma_split_str_nonempty(s: Seq<char>, sep: Seq<char>)
    ensures
        split_str(s, sep).len() >= 1,
    decreases s.len(),
{
    if s.len() > 0 && sep.len() > 0 {
        if has_prefix(s, sep) {
            lemma_split_str_nonempty(s.skip(sep.len() as int), sep);
        } else {
            lemma_split_str_nonempty(s.drop_first(), sep);
        }
    }
}

/// Whether `p` occurs in `v` at `i`.
fn occurs_here(v: &Vec<char>, p: &Vec<char>, i: usize) -> (r: bool)
    requires
        i <= v@.len(),
    ensures
        r == has_prefix(v@.skip(i as int), p@),
{
    if p.len() > v.len() - i {
        return false;
    }
    let mut k: usize = 0;
    while k < p.len()
        invariant
            k <= p@.len(),
            i <= v@.len(),
            i + p@.len() <= v@.len(),
            forall|j: int| 0 <= j < k ==> v@[i + j] == p@[j],
        decreases p.len() - k,
    {
        assert(i + k < v@.len());
        assert(v@.len() == v.len());
        if v[i + k] != p[k] {
            assert(v@.skip(i as int).subrange(0, p@.len() as int)[k as int] != p@[k as int]);
            return false;
        }
        k += 1;
    }
    assert(v@.skip(i as int).subrange(0, p@.len() as int) =~= p@);
    true
}

/// `str::split` with a non-empty string pattern (see [`split_str`]).
pub fn split_by_str(s: &str, sep: &str) -> (out: Vec<String>)
    requires
        sep@.len() > 0,
    ensures
        strs_view(out@) == split_str(s@, sep@),
{
    let v = to_chars(s);
    let p = to_chars(sep);
    let mut parts: Vec<String> = Vec::new();
    let mut cur: Vec<char> = Vec::new();
    let mut i: usize = 0;
    assert(v@.skip(0) =~= v@);
    proof {
        lemma_split_str_nonempty(s@, sep@);
    }
    while i < v.len()
        invariant
            i <= v@.len(),
            v@ == s@,
            p@ == sep@,
            sep@.len() > 0,
            split_str(s@, sep@) == strs_view(parts@) + seq![cur@ + split_str(v@.skip(i as int), sep@)[0]]
                + split_str(v@.skip(i as int), sep@).drop_first(),
        decreases v.len() - i,
    {
        let ghost rest = v@.skip(i as int);
        if occurs_here(&v, &p, i) {
            let ghost after = v@.skip(i + p@.len());
            let ghost old_cur = cur@;
            assert(rest.skip(sep@.len() as int) =~= after);
            proof {
                lemma_split_str_nonempty(after, sep@);
            }
            let ghost old_parts = strs_view(parts@);
            let piece = from_chars(&cur);
            parts.push(piece);
            assert(strs_view(parts@) =~= old_parts.push(old_cur));
            cur = Vec::new();
            assert(split_str(rest, sep@) == seq![Seq::<char>::empty()] + split_str(after, sep@));
            assert(split_str(rest, sep@)[0] =~= Seq::<char>::empty());
            assert(split_str(rest, sep@).drop_first() =~= split_str(after, sep@));
            assert(cur@ + split_str(after, sep@)[0] =~= split_str(after, sep@)[0]);
            assert(split_str(after, sep@) =~= seq![split_str(after, sep@)[0]] + split_str(after, sep@).drop_first());
            assert(old_cur + Seq::<char>::empty() =~= old_cur);
            i = i + p.len();
            assert(v@.skip(i as int) =~= after);
                } else {
            let ghost tail = v@.skip(i + 1);
            assert(rest.drop_first() =~= tail);
            assert(rest[0] == v@[i as int]);
            proof {
                lemma_split_str_nonempty(tail, sep@);
            }
            let ghost old_cur = cur@;
            cur.push(v[i]);
            assert(split_str(rest, sep@) == split_str(tail, sep@).update(0, seq![v@[i as int]] + split_str(tail, sep@)[0]));
            assert(split_str(rest, sep@)[0] == seq![v@[i as int]] + split_str(tail, sep@)[0]);
            assert(split_str(rest, sep@).drop_first() =~= split_str(tail, sep@).drop_first());
            assert(old_cur + split_str(rest, sep@)[0] =~= cur@ + split_str(tail, sep@)[0]);
            i = i + 1;
            assert(v@.skip(i as int) =~= tail);
        }
    }
    assert(v@.skip(i as int) =~= Seq::<char>::empty());
    assert(split_str(Seq::<char>::empty(), sep@) =~= seq![Seq::<char>::empty()]);
    let last = from_chars(&cur);
    let ghost old_parts = strs_view(parts@);
    parts.push(last);
    assert(strs_view(parts@) =~= old_parts.push(cur@));
    assert(cur@ + Seq::<char>::empty() =~= cur@);
    assert(split_str(s@, sep@) =~= old_parts + seq![cur@]);
    parts
}

/// A number written in decimal is all digits, reads back as the number, and
/// has no sign or whitespace to trim.
pub proof fn lemma_decimal_reads_back(n: nat)
    ensures
        decimal(n).len() > 0,
        all_digits(decimal(n)),
        digits_value(decimal(n)) == n,
        decimal(n)[0] != '+',
        trim(decimal(n)) == decimal(n),
    decreases n,
{
    let d = decimal(n);
    if n < 10 {
        assert(d =~= seq![(48 + n) as char]);
        assert(d.drop_last() =~= Seq::<char>::empty());
        assert(((48 + n) as char) as u32 == 48 + n);
        assert(digit_value(d.last()) == n);
        assert(digits_value(d) == digits_value(d.drop_last()) * 10 + digit_value(d.last()));
    } else {
        lemma_decimal_reads_back(n / 10);
        let h = decimal(n / 10);
        assert(d == h.push((48 + n % 10) as char));
        assert(d.drop_last() =~= h);
        assert(((48 + n % 10) as char) as u32 == 48 + n % 10);
        assert(digit_value(d.last()) == n % 10);
        assert(n == (n / 10) * 10 + n % 10);
        assert(digits_value(d) == digits_value(d.drop_last()) * 10 + digit_value(d.last()));
        assert(digits_value(d.drop_last()) == n / 10);
        assert(digits_value(d) == n);
        assert forall|i: int| 0 <= i < d.len() implies is_ascii_digit(#[trigger] d[i]) by {
            if i < h.len() {
                assert(d[i] == h[i]);
            }
        }
        assert(d[0] == h[0]);
    }
    assert(!is_whitespace(d[0]));
    assert(!is_whitespace(d.last()));
    assert(trim_start(d) == d);
    assert(trim_end(d) == d);
}

} // verus!

//! Checking a rendered README against the structure its template promises: one
//! H1 title, a fixed list of sections, short AI-written blocks of the right
//! shape, and static sections left as the template wrote them.
use crate::bundle::PreparedTemplate;
use crate::context::ContextBundle;
use crate::render::{expression_outcome, frags_safe, render_expression};
use crate::templates::{ai_fragments_spec, ai_frags_view, frags_view, FragmentView, TemplateFragment};
use crate::value_map::ValueMap;
use std::collections::BTreeMap;
use crate::templates::{role_label, AiFragment, AiFragmentView, ReadmeFragmentRole};
use crate::text::{
    contains_seq, decimal, decimal_string, has_prefix, is_whitespace, join, join_strings, lines, lines_of,
    lower_seq, push_str, str_contains, str_starts_with, strs_view, to_ascii_lowercase, trim, trim_start,
    trim_start_string, trim_string, char_is_whitespace,
};
use vstd::prelude::*;

verus! {

broadcast use {vstd::std_specs::btree::group_btree_axioms, vstd::laws_cmp::group_laws_cmp};

/// One problem found in a rendered README.
pub struct ReadmeVerificationFinding {
    pub fragment_index: Option<usize>,
    pub fragment_label: Option<String>,
    pub repairable: bool,
    pub message: String,
}

/// A finding as plain values.
pub struct FindingView {
    pub index: Option<nat>,
    pub label: Option<Seq<char>>,
    pub repairable: bool,
    pub message: Seq<char>,
}

impl ReadmeVerificationFinding {
    pub open spec fn view(&self) -> FindingView {
        FindingView {
            index: match self.fragment_index {
                Some(i) => Some(i as nat),
                None => None,
            },
            label: match self.fragment_label {
                Some(l) => Some(l@),
                None => None,
            },
            repairable: self.repairable,
            message: self.message@,
        }
    }
}

pub open spec fn findings_view(v: Seq<ReadmeVerificationFinding>) -> Seq<FindingView> {
    v.map_values(|f: ReadmeVerificationFinding| f@)
}

/// All findings for one README.
pub struct ReadmeVerificationReport {
    pub findings: Vec<ReadmeVerificationFinding>,
}

/// The message shown for a finding: `label: message`, or the message alone.
pub open spec fn finding_message(f: FindingView) -> Seq<char> {
    match f.label {
        Some(l) => l + ": "@ + f.message,
        None => f.message,
    }
}

/// Whether `i` is the fragment index of a repairable finding.
pub open spec fn repairable_index(fs: Seq<FindingView>, i: nat) -> bool {
    exists|k: int| 0 <= k < fs.len() && (#[trigger] fs[k]).repairable && fs[k].index == Some(i)
}

/// Inserts `x` into a strictly increasing list, keeping it so.
fn insert_sorted(v: &mut Vec<usize>, x: usize)
    requires
        forall|i: int, j: int| 0 <= i < j < old(v)@.len() ==> old(v)@[i] < old(v)@[j],
    ensures
        forall|i: int, j: int| 0 <= i < j < final(v)@.len() ==> final(v)@[i] < final(v)@[j],
        forall|y: usize| final(v)@.contains(y) <==> (old(v)@.contains(y) || y == x),
{
    let mut p: usize = 0;
    while p < v.len() && v[p] < x
        invariant
            p <= v@.len(),
            v@ == old(v)@,
            forall|j: int| 0 <= j < p ==> v@[j] < x,
        decreases v.len() - p,
    {
        p += 1;
    }
    if p < v.len() && v[p] == x {
        assert(v@[p as int] == x);
        return;
    }
    let ghost before = v@;
    v.insert(p, x);
    assert forall|i: int, j: int| 0 <= i < j < v@.len() implies v@[i] < v@[j] by {
        if j < p {
            assert(v@[i] == before[i] && v@[j] == before[j]);
        } else if j == p {
            assert(v@[i] == before[i]);
        } else if i < p {
            assert(v@[i] == before[i] && v@[j] == before[j - 1]);
            assert(before[j - 1] >= before[p as int]);
        } else if i == p {
            assert(v@[j] == before[j - 1]);
            assert(before[j - 1] >= before[p as int]);
        } else {
            assert(v@[i] == before[i - 1] && v@[j] == before[j - 1]);
        }
    }
    assert forall|y: usize| v@.contains(y) <==> (before.contains(y) || y == x) by {
        if v@.contains(y) {
            let k = choose|k: int| 0 <= k < v@.len() && v@[k] == y;
            if k < p {
                assert(before[k] == y);
            } else if k > p {
                assert(before[k - 1] == y);
            }
        }
        if before.contains(y) {
            let k = choose|k: int| 0 <= k < before.len() && before[k] == y;
            if k < p {
                assert(v@[k] == y);
            } else {
                assert(v@[k + 1] == y);
            }
        }
        if y == x {
            assert(v@[p as int] == y);
        }
    }
    assert(before == old(v)@);
    assert(forall|y: usize| v@.contains(y) <==> (old(v)@.contains(y) || y == x));
}

impl ReadmeVerificationReport {
    /// Whether the README passed every check.
    pub fn is_valid(&self) -> (r: bool)
        ensures
            r == (self.findings@.len() == 0),
    {
        self.findings.len() == 0
    }

    /// The fragment indexes of the repairable findings, each once, ascending.
    pub fn repairable_fragment_indexes(&self) -> (r: Vec<usize>)
        ensures
            forall|i: int, j: int| 0 <= i < j < r@.len() ==> r@[i] < r@[j],
            forall|x: usize| r@.contains(x) <==> repairable_index(findings_view(self.findings@), x as nat),
    {
        let ghost fs = findings_view(self.findings@);
        let mut r: Vec<usize> = Vec::new();
        let mut k: usize = 0;
        while k < self.findings.len()
            invariant
                k <= self.findings@.len(),
                fs == findings_view(self.findings@),
                forall|i: int, j: int| 0 <= i < j < r@.len() ==> r@[i] < r@[j],
                forall|x: usize| r@.contains(x) <==> exists|m: int| 0 <= m < k && (#[trigger] fs[m]).repairable
                    && fs[m].index == Some(x as nat),
            decreases self.findings.len() - k,
        {
            let f = &self.findings[k];
            assert(fs[k as int] == f@);
            if f.repairable {
                match f.fragment_index {
                    Some(i) => {
                        insert_sorted(&mut r, i);
                        assert forall|x: usize| r@.contains(x) <==> exists|m: int| 0 <= m < k + 1 && (
                        #[trigger] fs[m]).repairable && fs[m].index == Some(x as nat) by {
                            if x == i {
                                assert(fs[k as int].repairable && fs[k as int].index == Some(x as nat));
                            }
                        }
                    },
                    None => {},
                }
            }
            k += 1;
        }
        r
    }

    /// Whether some finding cannot be repaired by rewriting a fragment.
    pub fn has_non_repairable_findings(&self) -> (r: bool)
        ensures
            r == exists|k: int| 0 <= k < self.findings@.len() && !(#[trigger] self.findings@[k]).repairable,
    {
        let mut k: usize = 0;
        while k < self.findings.len()
            invariant
                k <= self.findings@.len(),
                forall|m: int| 0 <= m < k ==> (#[trigger] self.findings@[m]).repairable,
            decreases self.findings.len() - k,
        {
            if !self.findings[k].repairable {
                return true;
            }
            k += 1;
        }
        false
    }

    /// The message of each finding, in order (see [`finding_message`]).
    pub fn render_messages(&self) -> (r: Vec<String>)
        ensures
            strs_view(r@) == findings_view(self.findings@).map_values(|f: FindingView| finding_message(f)),
    {
        let mut r: Vec<String> = Vec::new();
        let mut k: usize = 0;
        while k < self.findings.len()
            invariant
                k <= self.findings@.len(),
                r@.len() == k,
                forall|m: int| 0 <= m < k ==> (#[trigger] r@[m])@ == finding_message(self.findings@[m]@),
            decreases self.findings.len() - k,
        {
            let f = &self.findings[k];
            let m = match &f.fragment_label {
                Some(label) => {
                    let mut m = label.clone();
                    push_str(&mut m, ": ");
                    push_str(&mut m, f.message.as_str());
                    m
                },
                None => f.message.clone(),
            };
            r.push(m);
            k += 1;
        }
        assert(strs_view(r@) =~= findings_view(self.findings@).map_values(|f: FindingView| finding_message(f)));
        r
    }
}

/// A second-level section of a README: its title and the lines under it.
pub struct ReadmeSection {
    pub title: String,
    pub body: Vec<String>,
}

/// A README split at its headings.
pub struct ParsedReadme {
    pub first_non_empty_is_h1: bool,
    pub h1_count: usize,
    pub preamble: Vec<String>,
    pub sections: Vec<ReadmeSection>,
}

/// A section as plain values.
pub open spec fn section_view(s: ReadmeSection) -> (Seq<char>, Seq<Seq<char>>) {
    (s.title@, strs_view(s.body@))
}

pub open spec fn sections_view(v: Seq<ReadmeSection>) -> Seq<(Seq<char>, Seq<Seq<char>>)> {
    v.map_values(|s: ReadmeSection| section_view(s))
}

/// Whether a line is an H1 heading: `# ` after leading whitespace.
pub open spec fn is_h1(line: Seq<char>) -> bool {
    has_prefix(trim_start(line), "# "@)
}

/// Whether a line has a non-whitespace character.
pub open spec fn non_blank(line: Seq<char>) -> bool {
    trim(line).len() > 0
}

/// Whether the first non-blank line is an H1 heading.
pub open spec fn first_non_blank_is_h1(ls: Seq<Seq<char>>) -> bool
    decreases ls.len(),
{
    if ls.len() == 0 {
        false
    } else if non_blank(ls[0]) {
        is_h1(ls[0])
    } else {
        first_non_blank_is_h1(ls.drop_first())
    }
}

/// The number of H1 lines.
pub open spec fn h1_count(ls: Seq<Seq<char>>) -> nat
    decreases ls.len(),
{
    if ls.len() == 0 {
        0
    } else {
        h1_count(ls.drop_last()) + if is_h1(ls.last()) { 1nat } else { 0nat }
    }
}

/// The state of reading a README line by line: whether the title was seen, the
/// lines between title and first section, and the sections so far.
pub struct ParseState {
    pub seen_h1: bool,
    pub preamble: Seq<Seq<char>>,
    pub sections: Seq<(Seq<char>, Seq<Seq<char>>)>,
}

/// One line read: lines before the first H1 and that H1 itself are skipped; `## `
/// opens a section titled by the trimmed rest; other lines go to the open
/// section, or to the preamble before any section.
pub open spec fn parse_step(st: ParseState, line: Seq<char>) -> ParseState {
    let t = trim_start(line);
    if has_prefix(t, "# "@) && !st.seen_h1 {
        ParseState { seen_h1: true, ..st }
    } else if !st.seen_h1 {
        st
    } else if has_prefix(t, "## "@) {
        ParseState { sections: st.sections.push((trim(t.skip(3)), Seq::empty())), ..st }
    } else if st.sections.len() > 0 {
        let last = st.sections.last();
        ParseState { sections: st.sections.update(st.sections.len() - 1, (last.0, last.1.push(line))), ..st }
    } else {
        ParseState { preamble: st.preamble.push(line), ..st }
    }
}

pub open spec fn parse_fold(ls: Seq<Seq<char>>) -> ParseState
    decreases ls.len(),
{
    if ls.len() == 0 {
        ParseState { seen_h1: false, preamble: Seq::empty(), sections: Seq::empty() }
    } else {
        parse_step(parse_fold(ls.drop_last()), ls.last())
    }
}

/// The parse of a README as plain values.
pub struct ParsedView {
    pub first_h1: bool,
    pub h1_count: nat,
    pub preamble: Seq<Seq<char>>,
    pub sections: Seq<(Seq<char>, Seq<Seq<char>>)>,
}

pub open spec fn parse_readme_spec(markdown: Seq<char>) -> ParsedView {
    let ls = lines(markdown);
    let st = parse_fold(ls);
    ParsedView {
        first_h1: first_non_blank_is_h1(ls),
        h1_count: h1_count(ls),
        preamble: st.preamble,
        sections: st.sections,
    }
}

impl ParsedReadme {
    pub open spec fn view(&self) -> ParsedView {
        ParsedView {
            first_h1: self.first_non_empty_is_h1,
            h1_count: self.h1_count as nat,
            preamble: strs_view(self.preamble@),
            sections: sections_view(self.sections@),
        }
    }
}

fn copy_strings(v: &Vec<String>) -> (r: Vec<String>)
    ensures
        strs_view(r@) == strs_view(v@),
{
    let mut r: Vec<String> = Vec::new();
    let mut i: usize = 0;
    while i < v.len()
        invariant
            i <= v@.len(),
            r@.len() == i,
            forall|j: int| 0 <= j < i ==> (#[trigger] r@[j])@ == v@[j]@,
        decreases v.len() - i,
    {
        r.push(v[i].clone());
        i += 1;
    }
    assert(strs_view(r@) =~= strs_view(v@));
    r
}

/// Splits a README at its headings (see [`parse_readme_spec`]).
pub fn parse_readme_document(markdown: &str) -> (r: ParsedReadme)
    ensures
        r@ == parse_readme_spec(markdown@),
{
    let ls = lines_of(markdown);
    let ghost lv = strs_view(ls@);
    let mut first_found = false;
    let mut first_is_h1 = false;
    let mut count: usize = 0;
    let mut seen_h1 = false;
    let mut preamble: Vec<String> = Vec::new();
    let mut sections: Vec<ReadmeSection> = Vec::new();
    let mut current: Option<ReadmeSection> = None;
    let mut i: usize = 0;
    assert(lv.take(0) =~= Seq::<Seq<char>>::empty());
    assert(lv.skip(0) =~= lv);
    assert(strs_view(preamble@) =~= Seq::<Seq<char>>::empty());
    assert(sections_view(sections@) =~= Seq::<(Seq<char>, Seq<Seq<char>>)>::empty());
    while i < ls.len()
        invariant
            i <= ls@.len(),
            lv == strs_view(ls@),
            lv == lines(markdown@),
            count <= i,
            h1_count(lv.take(i as int)) == count as nat,
            first_found ==> first_non_blank_is_h1(lv) == first_is_h1,
            !first_found ==> forall|j: int| 0 <= j < i ==> !non_blank(#[trigger] lv[j]),
            !first_found ==> first_non_blank_is_h1(lv) == first_non_blank_is_h1(lv.skip(i as int)),
            parse_fold(lv.take(i as int)) == (ParseState {
                seen_h1,
                preamble: strs_view(preamble@),
                sections: match current {
                    Some(c) => sections_view(sections@).push(section_view(c)),
                    None => sections_view(sections@),
                },
            }),
            current is None ==> sections@.len() == 0,
        decreases ls.len() - i,
    {
        let line = &ls[i];
        assert(lv[i as int] == line@);
        assert(lv.take(i + 1).drop_last() =~= lv.take(i as int));
        assert(lv.take(i + 1).last() == line@);
        let trimmed = trim_start_string(line.as_str());
        let is_h1_line = str_starts_with(trimmed.as_str(), "# ");
        if !first_found {
            assert(lv.skip(i as int).drop_first() =~= lv.skip(i + 1));
            assert(lv.skip(i as int)[0] == line@);
            if !trim_string(line.as_str()).as_str().is_empty() {
                first_found = true;
                first_is_h1 = is_h1_line;
            }
        }
        if is_h1_line {
            count = count + 1;
        }
        let ghost st = parse_fold(lv.take(i as int));
        let ghost sv0 = sections_view(sections@);
        if is_h1_line && !seen_h1 {
            seen_h1 = true;
        } else if !seen_h1 {
        } else if str_starts_with(trimmed.as_str(), "## ") {
            proof {
                reveal_strlit("## ");
            }
            let tv = to_chars_of(&trimmed);
            let title = crate::text::string_from_range(&tv, 3, tv.len());
            assert(tv@.subrange(3, tv@.len() as int) =~= trimmed@.skip(3));
            let title = trim_string(title.as_str());
            match current {
                Some(c) => {
                    let ghost cv = section_view(c);
                    sections.push(c);
                    assert(sections_view(sections@) =~= sv0.push(cv));
                },
                None => {},
            }
            let body: Vec<String> = Vec::new();
            assert(strs_view(body@) =~= Seq::<Seq<char>>::empty());
            current = Some(ReadmeSection { title, body });
        } else {
            match current {
                Some(c) => {
                    let mut c = c;
                    let ghost old_body = strs_view(c.body@);
                    let ghost old_c = section_view(c);
                    c.body.push(line.clone());
                    assert(strs_view(c.body@) =~= old_body.push(line@));
                    assert(sv0.push(section_view(c)) =~= sv0.push(old_c).update(sv0.len() as int, (old_c.0, old_c.1.push(line@))));
                    current = Some(c);
                },
                None => {
                    let ghost old_pre = strs_view(preamble@);
                    preamble.push(line.clone());
                    assert(strs_view(preamble@) =~= old_pre.push(line@));
                },
            }
        }
        i += 1;
    }
    let ghost sv1 = sections_view(sections@);
    match current {
        Some(c) => {
            let ghost cv = section_view(c);
            sections.push(c);
            assert(sections_view(sections@) =~= sv1.push(cv));
        },
        None => {},
    }
    assert(lv.take(ls.len() as int) =~= lv);
    proof {
        if !first_found {
            assert(lv.skip(ls.len() as int) =~= Seq::<Seq<char>>::empty());
        }
    }
    ParsedReadme {
        first_non_empty_is_h1: if first_found { first_is_h1 } else { false },
        h1_count: count,
        preamble,
        sections,
    }
}

fn to_chars_of(s: &String) -> (v: Vec<char>)
    ensures
        v@ == s@,
{
    crate::text::to_chars(s.as_str())
}


/// Whether a line looks like a badge: `[![` or `![` after trimming.
pub open spec fn looks_like_badge(line: Seq<char>) -> bool {
    has_prefix(trim(line), "[!["@) || has_prefix(trim(line), "!["@)
}

/// The number of badge lines.
pub open spec fn badge_count(ls: Seq<Seq<char>>) -> nat
    decreases ls.len(),
{
    if ls.len() == 0 {
        0
    } else {
        badge_count(ls.drop_last()) + if looks_like_badge(ls.last()) { 1nat } else { 0nat }
    }
}

/// The number of non-blank lines.
pub open spec fn non_blank_count(ls: Seq<Seq<char>>) -> nat
    decreases ls.len(),
{
    if ls.len() == 0 {
        0
    } else {
        non_blank_count(ls.drop_last()) + if non_blank(ls.last()) { 1nat } else { 0nat }
    }
}

/// A sentence terminator.
pub open spec fn is_terminator(c: char) -> bool {
    c == '.' || c == '!' || c == '?'
}

/// Reading text left to right: the number of finished non-blank segments, and
/// whether the open segment has a non-whitespace character.
pub open spec fn sentence_fold(s: Seq<char>) -> (nat, bool)
    decreases s.len(),
{
    if s.len() == 0 {
        (0, false)
    } else {
        let (n, open) = sentence_fold(s.drop_last());
        let c = s.last();
        if is_terminator(c) {
            (n + if open { 1nat } else { 0nat }, false)
        } else {
            (n, open || !is_whitespace(c))
        }
    }
}

/// The number of sentences: the pieces between `.`, `!` and `?` that are not
/// blank.
pub open spec fn sentence_count(s: Seq<char>) -> nat {
    let (n, open) = sentence_fold(s);
    n + if open { 1nat } else { 0nat }
}

/// The trimmed non-blank lines of a text.
pub open spec fn bullets_of(ls: Seq<Seq<char>>) -> Seq<Seq<char>>
    decreases ls.len(),
{
    if ls.len() == 0 {
        Seq::empty()
    } else {
        let rest = bullets_of(ls.drop_last());
        if trim(ls.last()).len() > 0 {
            rest.push(trim(ls.last()))
        } else {
            rest
        }
    }
}

/// Counts sentences (see [`sentence_count`]).
pub fn count_sentences(text: &str) -> (n: usize)
    ensures
        n as nat == sentence_count(text@),
{
    let v = crate::text::to_chars(text);
    let mut n: usize = 0;
    let mut open = false;
    let mut i: usize = 0;
    assert(v@.take(0) =~= Seq::<char>::empty());
    while i < v.len()
        invariant
            i <= v@.len(),
            v@ == text@,
            n <= i,
            open ==> n < i,
            sentence_fold(v@.take(i as int)) == (n as nat, open),
        decreases v.len() - i,
    {
        assert(v@.take(i + 1).drop_last() =~= v@.take(i as int));
        let c = v[i];
        if c == '.' || c == '!' || c == '?' {
            if open {
                n = n + 1;
            }
            open = false;
        } else {
            open = open || !char_is_whitespace(c);
        }
        i += 1;
    }
    assert(v@.take(v@.len() as int) =~= v@);
    if open {
        n + 1
    } else {
        n
    }
}

/// The trimmed non-blank lines of a text (see [`bullets_of`]).
pub fn bullet_lines(text: &str) -> (r: Vec<String>)
    ensures
        strs_view(r@) == bullets_of(lines(text@)),
{
    let ls = lines_of(text);
    let ghost lv = strs_view(ls@);
    let mut r: Vec<String> = Vec::new();
    let mut i: usize = 0;
    assert(lv.take(0) =~= Seq::<Seq<char>>::empty());
    assert(strs_view(r@) =~= Seq::<Seq<char>>::empty());
    while i < ls.len()
        invariant
            i <= ls@.len(),
            lv == strs_view(ls@),
            strs_view(r@) == bullets_of(lv.take(i as int)),
        decreases ls.len() - i,
    {
        assert(lv.take(i + 1).drop_last() =~= lv.take(i as int));
        assert(lv.take(i + 1).last() == ls@[i as int]@);
        let t = trim_string(ls[i].as_str());
        if !t.as_str().is_empty() {
            let ghost before = strs_view(r@);
            let ghost tv = t@;
            r.push(t);
            assert(strs_view(r@) =~= before.push(tv));
        }
        i += 1;
    }
    assert(lv.take(ls@.len() as int) =~= lv);
    r
}

/// Whether a line looks like a badge (see [`looks_like_badge`]).
pub fn looks_like_badge_line(line: &str) -> (r: bool)
    ensures
        r == looks_like_badge(line@),
{
    let t = trim_string(line);
    str_starts_with(t.as_str(), "[![") || str_starts_with(t.as_str(), "![")
}

/// Counts badge lines (see [`badge_count`]).
fn count_badge_lines(ls: &Vec<String>) -> (n: usize)
    ensures
        n as nat == badge_count(strs_view(ls@)),
{
    let ghost lv = strs_view(ls@);
    let mut n: usize = 0;
    let mut i: usize = 0;
    assert(lv.take(0) =~= Seq::<Seq<char>>::empty());
    while i < ls.len()
        invariant
            i <= ls@.len(),
            n <= i,
            lv == strs_view(ls@),
            badge_count(lv.take(i as int)) == n as nat,
        decreases ls.len() - i,
    {
        assert(lv.take(i + 1).drop_last() =~= lv.take(i as int));
        assert(lv.take(i + 1).last() == ls@[i as int]@);
        if looks_like_badge_line(ls[i].as_str()) {
            n = n + 1;
        }
        i += 1;
    }
    assert(lv.take(ls@.len() as int) =~= lv);
    n
}

/// Counts non-blank lines (see [`non_blank_count`]).
fn count_non_blank(ls: &Vec<String>) -> (n: usize)
    ensures
        n as nat == non_blank_count(strs_view(ls@)),
{
    let ghost lv = strs_view(ls@);
    let mut n: usize = 0;
    let mut i: usize = 0;
    assert(lv.take(0) =~= Seq::<Seq<char>>::empty());
    while i < ls.len()
        invariant
            i <= ls@.len(),
            n <= i,
            lv == strs_view(ls@),
            non_blank_count(lv.take(i as int)) == n as nat,
        decreases ls.len() - i,
    {
        assert(lv.take(i + 1).drop_last() =~= lv.take(i as int));
        assert(lv.take(i + 1).last() == ls@[i as int]@);
        if !trim_string(ls[i].as_str()).as_str().is_empty() {
            n = n + 1;
        }
        i += 1;
    }
    assert(lv.take(ls@.len() as int) =~= lv);
    n
}

/// Whether some line, after `f` is applied, starts with `p`.
pub open spec fn some_line_starts(ls: Seq<Seq<char>>, p: Seq<char>, trim_first: bool) -> bool {
    exists|k: int| 0 <= k < ls.len() && has_prefix(if trim_first { trim_start(#[trigger] ls[k]) } else { ls[k] }, p)
}

fn any_line_starts(ls: &Vec<String>, p: &str, trim_first: bool) -> (r: bool)
    ensures
        r == some_line_starts(strs_view(ls@), p@, trim_first),
{
    let ghost lv = strs_view(ls@);
    let mut i: usize = 0;
    while i < ls.len()
        invariant
            i <= ls@.len(),
            lv == strs_view(ls@),
            forall|k: int| 0 <= k < i ==> !has_prefix(if trim_first { trim_start(#[trigger] lv[k]) } else { lv[k] }, p@),
        decreases ls.len() - i,
    {
        assert(lv[i as int] == ls@[i as int]@);
        let hit = if trim_first {
            let t = trim_start_string(ls[i].as_str());
            str_starts_with(t.as_str(), p)
        } else {
            str_starts_with(ls[i].as_str(), p)
        };
        if hit {
            return true;
        }
        i += 1;
    }
    false
}

/// The fragment at position `i` is the one a map keyed by index keeps: no later
/// fragment has its index.
pub open spec fn kept(fs: Seq<AiFragmentView>, i: int) -> bool {
    forall|j: int| i < j < fs.len() ==> (#[trigger] fs[j]).index != fs[i].index
}

/// A kept fragment with the role `role`.
pub open spec fn role_candidate(fs: Seq<AiFragmentView>, role: ReadmeFragmentRole, i: int) -> bool {
    0 <= i < fs.len() && kept(fs, i) && fs[i].role == Some(role)
}

/// The fragment a finding about `role` names: of the fragments a map keyed by
/// index keeps, the one with the smallest index that has the role.
pub open spec fn role_pick(fs: Seq<AiFragmentView>, role: ReadmeFragmentRole) -> Option<int> {
    if exists|i: int| role_candidate(fs, role, i) {
        Some(
            choose|i: int|
                role_candidate(fs, role, i) && forall|j: int| #[trigger] role_candidate(fs, role, j) ==> fs[i].index <= fs[j].index,
        )
    } else {
        None
    }
}

/// A finding about `role`, naming the fragment [`role_pick`] gives.
pub open spec fn role_finding_spec(fs: Seq<AiFragmentView>, role: ReadmeFragmentRole, repairable: bool, message: Seq<char>) -> FindingView {
    match role_pick(fs, role) {
        Some(i) => FindingView { index: Some(fs[i].index), label: Some(fs[i].label), repairable, message },
        None => FindingView { index: None, label: None, repairable, message },
    }
}

/// A finding about `role` (see [`role_finding_spec`]).
pub fn role_finding(fragments: &Vec<AiFragment>, role: ReadmeFragmentRole, repairable: bool, message: &str) -> (r: ReadmeVerificationFinding)
    ensures
        r@ == role_finding_spec(crate::templates::ai_frags_view(fragments@), role, repairable, message@),
{
    let ghost fs = crate::templates::ai_frags_view(fragments@);
    let mut best: Option<usize> = None;
    let mut i: usize = 0;
    while i < fragments.len()
        invariant
            i <= fragments@.len(),
            fs == crate::templates::ai_frags_view(fragments@),
            match best {
                Some(b) => b < i && role_candidate(fs, role, b as int) && forall|j: int| 0 <= j < i && #[trigger] role_candidate(fs, role, j) ==> fs[b as int].index <= fs[j].index,
                None => forall|j: int| 0 <= j < i ==> !#[trigger] role_candidate(fs, role, j),
            },
        decreases fragments.len() - i,
    {
        assert(fs[i as int] == fragments@[i as int]@);
        if fragments[i].readme_role == Some(role) {
            let mut later = false;
            let mut j: usize = i + 1;
            while j < fragments.len()
                invariant
                    i < j <= fragments@.len(),
                    i < fragments@.len(),
                    fs == crate::templates::ai_frags_view(fragments@),
                    !later ==> forall|k: int| i < k < j ==> (#[trigger] fs[k]).index != fs[i as int].index,
                    later ==> !kept(fs, i as int),
                decreases fragments.len() - j,
            {
                assert(fs[j as int] == fragments@[j as int]@);
                if fragments[j].placeholder.index == fragments[i].placeholder.index {
                    later = true;
                }
                j += 1;
            }
            if !later {
                let better = match best {
                    Some(b) => fragments[i].placeholder.index < fragments[b].placeholder.index,
                    None => true,
                };
                if better {
                    best = Some(i);
                }
                proof {
                    match best {
                        Some(b) => {
                            assert(fs[b as int] == fragments@[b as int]@);
                        },
                        None => {},
                    }
                }
            }
        }
        i += 1;
    }
    proof {
        match best {
            Some(b) => {
                assert(role_candidate(fs, role, b as int));
                let c = choose|c: int| role_candidate(fs, role, c) && forall|j: int| #[trigger] role_candidate(fs, role, j) ==> fs[c].index <= fs[j].index;
                assert(role_candidate(fs, role, c));
                assert(fs[b as int].index <= fs[c].index);
                assert(fs[c].index <= fs[b as int].index);
                if c < b {
                    assert(fs[b as int].index != fs[c].index);
                } else if c > b {
                    assert(fs[c].index != fs[b as int].index);
                }
            },
            None => {},
        }
    }
    match best {
        Some(b) => ReadmeVerificationFinding {
            fragment_index: Some(fragments[b].placeholder.index),
            fragment_label: Some(fragments[b].label.clone()),
            repairable,
            message: message.to_owned(),
        },
        None => ReadmeVerificationFinding {
            fragment_index: None,
            fragment_label: None,
            repairable,
            message: message.to_owned(),
        },
    }
}


/// A finding about `role` that a repair of its fragment can fix.
pub open spec fn rf(fs: Seq<AiFragmentView>, role: ReadmeFragmentRole, message: Seq<char>) -> FindingView {
    role_finding_spec(fs, role, true, message)
}

/// Bullet checks: every non-blank line starts with `- `, and there are `min` to
/// `max` of them.
pub open spec fn bullet_findings(fs: Seq<AiFragmentView>, role: ReadmeFragmentRole, v: Seq<char>, min: nat, max: nat) -> Seq<
    FindingView,
> {
    let bs = bullets_of(lines(v));
    if exists|k: int| 0 <= k < bs.len() && !has_prefix(#[trigger] bs[k], "- "@) {
        seq![rf(fs, role, role_label(role) + " must use markdown bullet lines only"@)]
    } else if !(min <= bs.len() && bs.len() <= max) {
        seq![rf(fs, role, role_label(role) + " must contain "@ + decimal(min) + " to "@ + decimal(max) + " bullet lines"@)]
    } else {
        Seq::empty()
    }
}

/// The tests block lacks the fallback sentence although no test command is known.
pub open spec fn tests_fallback_missing(ctx: ContextBundle, v: Seq<char>) -> bool {
    ctx.facts.test_command is None && !contains_seq(lower_seq(v), "no verified test command was found"@)
}

/// The checks of one AI value by its README role.
pub open spec fn role_value_findings(fs: Seq<AiFragmentView>, ctx: ContextBundle, role: Option<ReadmeFragmentRole>, v: Seq<char>) -> Seq<
    FindingView,
> {
    match role {
        Some(ReadmeFragmentRole::Badges) => if non_blank_count(lines(v)) > 1 {
            seq![rf(fs, ReadmeFragmentRole::Badges, "badges must be a single markdown line or blank"@)]
        } else {
            Seq::empty()
        },
        Some(ReadmeFragmentRole::Overview) => (if some_line_starts(lines(v), "-"@, true) {
            seq![rf(fs, ReadmeFragmentRole::Overview, "overview must be prose, not bullet points"@)]
        } else {
            Seq::empty()
        }) + (if !(2 <= sentence_count(v) && sentence_count(v) <= 3) {
            seq![rf(fs, ReadmeFragmentRole::Overview, "overview must be 2 or 3 sentences"@)]
        } else {
            Seq::empty()
        }),
        Some(ReadmeFragmentRole::QuickStart) => bullet_findings(fs, ReadmeFragmentRole::QuickStart, v, 2, 3),
        Some(ReadmeFragmentRole::Usage) => bullet_findings(fs, ReadmeFragmentRole::Usage, v, 2, 3),
        Some(ReadmeFragmentRole::Tests) => bullet_findings(fs, ReadmeFragmentRole::Tests, v, 1, 3) + (if tests_fallback_missing(ctx, v) {
            seq![rf(fs, ReadmeFragmentRole::Tests, "tests must use the explicit fallback when no verified test command exists"@)]
        } else {
            Seq::empty()
        }),
        None => Seq::empty(),
    }
}

/// An AI value must not start a line with `#`.
pub open spec fn heading_findings(fs: Seq<AiFragmentView>, role: Option<ReadmeFragmentRole>, v: Seq<char>) -> Seq<FindingView> {
    if some_line_starts(lines(v), "#"@, false) {
        seq![rf(
            fs,
            match role {
                Some(r) => r,
                None => ReadmeFragmentRole::Overview,
            },
            "AI fragments must not introduce headings"@,
        )]
    } else {
        Seq::empty()
    }
}

/// The checks of the AI values of the first `n` fragments that have a value.
pub open spec fn value_findings(fs: Seq<AiFragmentView>, n: int, ctx: ContextBundle, ai: Map<usize, String>) -> Seq<FindingView>
    decreases n,
{
    if n <= 0 {
        Seq::empty()
    } else {
        let f = fs[n - 1];
        value_findings(fs, n - 1, ctx, ai) + if f.index <= usize::MAX && ai.contains_key(f.index as usize) {
            let v = ai[f.index as usize]@;
            role_value_findings(fs, ctx, f.role, v) + heading_findings(fs, f.role, v)
        } else {
            Seq::empty()
        }
    }
}

fn push_role_finding(out: &mut Vec<ReadmeVerificationFinding>, fragments: &Vec<AiFragment>, role: ReadmeFragmentRole, message: &str)
    ensures
        findings_view(final(out)@) == findings_view(old(out)@).push(
            rf(crate::templates::ai_frags_view(fragments@), role, message@),
        ),
{
    let f = role_finding(fragments, role, true, message);
    let ghost before = findings_view(out@);
    let ghost fv = f@;
    out.push(f);
    assert(findings_view(out@) =~= before.push(fv));
}

fn check_bullets(out: &mut Vec<ReadmeVerificationFinding>, fragments: &Vec<AiFragment>, role: ReadmeFragmentRole, value: &str, min: usize, max: usize)
    ensures
        findings_view(final(out)@) == findings_view(old(out)@) + bullet_findings(
            crate::templates::ai_frags_view(fragments@),
            role,
            value@,
            min as nat,
            max as nat,
        ),
{
    let bullets = bullet_lines(value);
    let ghost bs = strs_view(bullets@);
    let mut k: usize = 0;
    while k < bullets.len()
        invariant
            k <= bullets@.len(),
            bs == strs_view(bullets@),
            bs == bullets_of(lines(value@)),
            out@ == old(out)@,
            forall|m: int| 0 <= m < k ==> has_prefix(#[trigger] bs[m], "- "@),
        decreases bullets.len() - k,
    {
        assert(bs[k as int] == bullets@[k as int]@);
        if !str_starts_with(bullets[k].as_str(), "- ") {
            assert(!has_prefix(bs[k as int], "- "@));
            let mut m = role.label().to_owned();
            push_str(&mut m, " must use markdown bullet lines only");
            push_role_finding(out, fragments, role, m.as_str());
            assert(seq![rf(crate::templates::ai_frags_view(fragments@), role, m@)] =~= bullet_findings(
                crate::templates::ai_frags_view(fragments@),
                role,
                value@,
                min as nat,
                max as nat,
            ));
            return;
        }
        k += 1;
    }
    if !(min <= bullets.len() && bullets.len() <= max) {
        let mut m = role.label().to_owned();
        push_str(&mut m, " must contain ");
        push_str(&mut m, decimal_string(min).as_str());
        push_str(&mut m, " to ");
        push_str(&mut m, decimal_string(max).as_str());
        push_str(&mut m, " bullet lines");
        push_role_finding(out, fragments, role, m.as_str());
        assert(seq![rf(crate::templates::ai_frags_view(fragments@), role, m@)] =~= bullet_findings(
            crate::templates::ai_frags_view(fragments@),
            role,
            value@,
            min as nat,
            max as nat,
        ));
    } else {
        assert(findings_view(out@) =~= findings_view(out@) + bullet_findings(
            crate::templates::ai_frags_view(fragments@),
            role,
            value@,
            min as nat,
            max as nat,
        ));
    }
}

/// Appends the checks of one AI value (see [`role_value_findings`] and
/// [`heading_findings`]).
pub fn verify_fragment_value(
    out: &mut Vec<ReadmeVerificationFinding>,
    fragments: &Vec<AiFragment>,
    role: Option<ReadmeFragmentRole>,
    context: &ContextBundle,
    value: &str,
)
    ensures
        findings_view(final(out)@) == findings_view(old(out)@) + role_value_findings(
            crate::templates::ai_frags_view(fragments@),
            *context,
            role,
            value@,
        ) + heading_findings(crate::templates::ai_frags_view(fragments@), role, value@),
{
    let ghost fs = crate::templates::ai_frags_view(fragments@);
    let ghost start = findings_view(out@);
    let ls = lines_of(value);
    match role {
        Some(ReadmeFragmentRole::Badges) => {
            if count_non_blank(&ls) > 1 {
                push_role_finding(out, fragments, ReadmeFragmentRole::Badges, "badges must be a single markdown line or blank");
            }
        },
        Some(ReadmeFragmentRole::Overview) => {
            if any_line_starts(&ls, "-", true) {
                push_role_finding(out, fragments, ReadmeFragmentRole::Overview, "overview must be prose, not bullet points");
            }
            let ghost mid = findings_view(out@);
            let n = count_sentences(value);
            if !(2 <= n && n <= 3) {
                push_role_finding(out, fragments, ReadmeFragmentRole::Overview, "overview must be 2 or 3 sentences");
            }
            assert(findings_view(out@) =~= start + role_value_findings(fs, *context, role, value@));
        },
        Some(ReadmeFragmentRole::QuickStart) => {
            check_bullets(out, fragments, ReadmeFragmentRole::QuickStart, value, 2, 3);
        },
        Some(ReadmeFragmentRole::Usage) => {
            check_bullets(out, fragments, ReadmeFragmentRole::Usage, value, 2, 3);
        },
        Some(ReadmeFragmentRole::Tests) => {
            check_bullets(out, fragments, ReadmeFragmentRole::Tests, value, 1, 3);
            let ghost mid = findings_view(out@);
            let missing = match &context.facts.test_command {
                Some(_) => false,
                None => !str_contains(to_ascii_lowercase(value).as_str(), "no verified test command was found"),
            };
            if missing {
                push_role_finding(
                    out,
                    fragments,
                    ReadmeFragmentRole::Tests,
                    "tests must use the explicit fallback when no verified test command exists",
                );
            }
            assert(findings_view(out@) =~= start + role_value_findings(fs, *context, role, value@));
        },
        None => {},
    }
    assert(findings_view(out@) =~= start + role_value_findings(fs, *context, role, value@));
    let ghost mid = findings_view(out@);
    if any_line_starts(&ls, "#", false) {
        let r = match role {
            Some(r) => r,
            None => ReadmeFragmentRole::Overview,
        };
        push_role_finding(out, fragments, r, "AI fragments must not introduce headings");
    }
    assert(findings_view(out@) =~= start + role_value_findings(fs, *context, role, value@) + heading_findings(fs, role, value@));
}


/// A finding about the whole README, tied to no fragment.
pub open spec fn plain_finding(message: Seq<char>) -> FindingView {
    FindingView { index: None, label: None, repairable: false, message }
}

/// The section titles a README has, in order.
pub open spec fn expected_titles() -> Seq<Seq<char>> {
    seq!["Quick Start"@, "Usage"@, "Tests"@, "Contributing"@, "License"@]
}

/// The titles of sections.
pub open spec fn titles(ss: Seq<(Seq<char>, Seq<Seq<char>>)>) -> Seq<Seq<char>> {
    ss.map_values(|s: (Seq<char>, Seq<Seq<char>>)| s.0)
}

/// Checks of the README's shape: no template syntax left, one H1 title first,
/// and exactly the expected sections.
pub open spec fn structure_findings(rendered: Seq<char>, p: ParsedView) -> Seq<FindingView> {
    (if contains_seq(rendered, "{{"@) || contains_seq(rendered, "}}"@) || contains_seq(rendered, "[[NANITE_"@) {
        seq![plain_finding("README still contains unresolved template placeholders"@)]
    } else {
        Seq::empty()
    }) + (if !p.first_h1 {
        seq![plain_finding("README must start with exactly one H1 title"@)]
    } else {
        Seq::empty()
    }) + (if p.h1_count != 1 {
        seq![plain_finding("README must contain exactly one H1 heading"@)]
    } else {
        Seq::empty()
    }) + (if titles(p.sections) != expected_titles() {
        seq![plain_finding("README top-level sections must be exactly: Quick Start, Usage, Tests, Contributing, License"@)]
    } else {
        Seq::empty()
    })
}

/// Checks of the badge lines before the first section.
pub open spec fn badge_findings(p: ParsedView, ctx: ContextBundle, fs: Seq<AiFragmentView>) -> Seq<FindingView> {
    let n = badge_count(p.preamble);
    (if n > 1 {
        seq![rf(fs, ReadmeFragmentRole::Badges, "badge area must contain at most one badge line"@)]
    } else {
        Seq::empty()
    }) + (if n > 0 && ctx.facts.ci_workflows@.len() == 0 && ctx.facts.license_source is None {
        seq![rf(fs, ReadmeFragmentRole::Badges, "badges require verified CI or license facts"@)]
    } else {
        Seq::empty()
    })
}

/// A section body as compared: its lines joined by newlines, trimmed.
pub open spec fn normalize_body(b: Seq<Seq<char>>) -> Seq<char> {
    trim(join(b, "\n"@))
}

/// The body of the first section titled `title`.
pub open spec fn first_section(ss: Seq<(Seq<char>, Seq<Seq<char>>)>, title: Seq<char>) -> Option<Seq<char>>
    decreases ss.len(),
{
    if ss.len() == 0 {
        None
    } else if ss[0].0 == title {
        Some(normalize_body(ss[0].1))
    } else {
        first_section(ss.drop_first(), title)
    }
}

/// The body of the last section titled `title`.
pub open spec fn last_section(ss: Seq<(Seq<char>, Seq<Seq<char>>)>, title: Seq<char>) -> Option<Seq<char>>
    decreases ss.len(),
{
    if ss.len() == 0 {
        None
    } else if ss.last().0 == title {
        Some(normalize_body(ss.last().1))
    } else {
        last_section(ss.drop_last(), title)
    }
}

/// The text one fragment adds to the template skeleton: text values, rendered
/// expressions and AI values, each empty where missing or failing.
pub open spec fn skeleton_piece(f: FragmentView, values: Map<Seq<char>, Seq<char>>, ai: Map<usize, String>, year: int) -> Seq<char> {
    match f {
        FragmentView::Literal(t) => t,
        FragmentView::Text(n, _) => if values.contains_key(n) {
            values[n]
        } else {
            Seq::empty()
        },
        FragmentView::Expression(e) => match expression_outcome(e, values, year) {
            Ok(s) => s,
            Err(_) => Seq::empty(),
        },
        FragmentView::Ai(i, _) => if i <= usize::MAX && ai.contains_key(i as usize) {
            ai[i as usize]@
        } else {
            Seq::empty()
        },
    }
}

pub open spec fn skeleton(fs: Seq<FragmentView>, values: Map<Seq<char>, Seq<char>>, ai: Map<usize, String>, year: int) -> Seq<char>
    decreases fs.len(),
{
    if fs.len() == 0 {
        Seq::empty()
    } else {
        skeleton(fs.drop_last(), values, ai, year) + skeleton_piece(fs.last(), values, ai, year)
    }
}

/// A static section's check: the README's first section of that title must
/// match the template's.
pub open spec fn static_finding(expected: ParsedView, p: ParsedView, title: Seq<char>) -> Seq<FindingView> {
    if last_section(expected.sections, title) != first_section(p.sections, title) {
        seq![FindingView { index: None, label: Some(title), repairable: false, message: title + " must stay identical to the template"@ }]
    } else {
        Seq::empty()
    }
}

/// The checks of the sections `Contributing` and `License`.
pub open spec fn static_findings(expected: ParsedView, p: ParsedView) -> Seq<FindingView> {
    static_finding(expected, p, "Contributing"@) + static_finding(expected, p, "License"@)
}

/// Every finding for a rendered template in the year `year`; none for a file
/// that is not the README.
pub open spec fn readme_findings(t: PreparedTemplate, rendered: Seq<char>, ctx: ContextBundle, ai: Map<usize, String>, year: int) -> Seq<FindingView> {
    if t.output_name@ != "README.md"@ {
        Seq::empty()
    } else {
        let fs = ai_fragments_spec(frags_view(t.fragments@), true);
        let p = parse_readme_spec(rendered);
        let expected = parse_readme_spec(skeleton(frags_view(t.fragments@), t.values@, ai, year));
        structure_findings(rendered, p) + badge_findings(p, ctx, fs) + value_findings(fs, fs.len() as int, ctx, ai)
            + static_findings(expected, p)
    }
}

fn push_plain(out: &mut Vec<ReadmeVerificationFinding>, message: &str)
    ensures
        findings_view(final(out)@) == findings_view(old(out)@).push(plain_finding(message@)),
{
    let f = ReadmeVerificationFinding { fragment_index: None, fragment_label: None, repairable: false, message: message.to_owned() };
    let ghost before = findings_view(out@);
    let ghost fv = f@;
    out.push(f);
    assert(findings_view(out@) =~= before.push(fv));
}

fn titles_expected(sections: &Vec<ReadmeSection>) -> (r: bool)
    ensures
        r == (titles(sections_view(sections@)) == expected_titles()),
{
    let ghost ts = titles(sections_view(sections@));
    if sections.len() != 5 {
        assert(ts.len() != expected_titles().len());
        return false;
    }
    assert(ts[0] == sections@[0].title@ && ts[1] == sections@[1].title@ && ts[2] == sections@[2].title@);
    assert(ts[3] == sections@[3].title@ && ts[4] == sections@[4].title@);
    let r = crate::text::str_eq(sections[0].title.as_str(), "Quick Start") && crate::text::str_eq(sections[1].title.as_str(), "Usage")
        && crate::text::str_eq(sections[2].title.as_str(), "Tests") && crate::text::str_eq(sections[3].title.as_str(), "Contributing")
        && crate::text::str_eq(sections[4].title.as_str(), "License");
    proof {
        if r {
            assert(ts =~= expected_titles());
        } else {
            if ts == expected_titles() {
                assert(ts[0] == expected_titles()[0]);
                assert(ts[1] == expected_titles()[1]);
                assert(ts[2] == expected_titles()[2]);
                assert(ts[3] == expected_titles()[3]);
                assert(ts[4] == expected_titles()[4]);
            }
        }
    }
    r
}

/// The checks of the README's shape (see [`structure_findings`]).
pub fn verify_readme_structure(rendered: &str, parsed: &ParsedReadme) -> (r: Vec<ReadmeVerificationFinding>)
    ensures
        findings_view(r@) == structure_findings(rendered@, parsed@),
{
    let mut out: Vec<ReadmeVerificationFinding> = Vec::new();
    let ghost p = parsed@;
    let ghost s0 = findings_view(out@);
    assert(s0 =~= Seq::<FindingView>::empty());
    if str_contains(rendered, "{{") || str_contains(rendered, "}}") || str_contains(rendered, "[[NANITE_") {
        push_plain(&mut out, "README still contains unresolved template placeholders");
    }
    let ghost s1 = findings_view(out@);
    if !parsed.first_non_empty_is_h1 {
        push_plain(&mut out, "README must start with exactly one H1 title");
    }
    let ghost s2 = findings_view(out@);
    if parsed.h1_count != 1 {
        push_plain(&mut out, "README must contain exactly one H1 heading");
    }
    let ghost s3 = findings_view(out@);
    if !titles_expected(&parsed.sections) {
        push_plain(&mut out, "README top-level sections must be exactly: Quick Start, Usage, Tests, Contributing, License");
    }
    assert(findings_view(out@) =~= structure_findings(rendered@, parsed@));
    out
}

/// Appends the badge checks (see [`badge_findings`]).
pub fn verify_badges(out: &mut Vec<ReadmeVerificationFinding>, parsed: &ParsedReadme, context: &ContextBundle, fragments: &Vec<AiFragment>)
    ensures
        findings_view(final(out)@) == findings_view(old(out)@) + badge_findings(parsed@, *context, ai_frags_view(fragments@)),
{
    let ghost start = findings_view(out@);
    let n = count_badge_lines(&parsed.preamble);
    if n > 1 {
        push_role_finding(out, fragments, ReadmeFragmentRole::Badges, "badge area must contain at most one badge line");
    }
    let no_license = match &context.facts.license_source {
        Some(_) => false,
        None => true,
    };
    if n > 0 && context.facts.ci_workflows.len() == 0 && no_license {
        push_role_finding(out, fragments, ReadmeFragmentRole::Badges, "badges require verified CI or license facts");
    }
    assert(findings_view(out@) =~= start + badge_findings(parsed@, *context, ai_frags_view(fragments@)));
}

/// Appends the checks of each AI value that was written (see [`value_findings`]).
#[verifier::rlimit(40)]
#[verifier::spinoff_prover]
pub fn verify_fragment_values(
    out: &mut Vec<ReadmeVerificationFinding>,
    fragments: &Vec<AiFragment>,
    context: &ContextBundle,
    ai_values: &BTreeMap<usize, String>,
)
    ensures
        findings_view(final(out)@) == findings_view(old(out)@) + value_findings(
            ai_frags_view(fragments@),
            fragments@.len() as int,
            *context,
            ai_values@,
        ),
{
    let ghost fs = ai_frags_view(fragments@);
    let ghost start = findings_view(out@);
    let mut i: usize = 0;
    assert(start + value_findings(fs, 0, *context, ai_values@) =~= start);
    while i < fragments.len()
        invariant
            i <= fragments@.len(),
            fs == ai_frags_view(fragments@),
            findings_view(out@) == start + value_findings(fs, i as int, *context, ai_values@),
        decreases fragments.len() - i,
    {
        assert(fs[i as int] == fragments@[i as int]@);
        let ghost before = findings_view(out@);
        match ai_values.get(&fragments[i].placeholder.index) {
            Some(v) => {
                assert(ai_values@.contains_key(fragments@[i as int].placeholder.index));
                verify_fragment_value(out, fragments, fragments[i].readme_role, context, v.as_str());
                assert(findings_view(out@) =~= start + value_findings(fs, i + 1, *context, ai_values@));
            },
            None => {
                assert(findings_view(out@) =~= start + value_findings(fs, i + 1, *context, ai_values@));
            },
        }
        i += 1;
    }
}

/// A section body as compared (see [`normalize_body`]).
pub fn normalize_section_body(lines: &Vec<String>) -> (r: String)
    ensures
        r@ == normalize_body(strs_view(lines@)),
{
    let joined = join_strings(lines, "\n");
    trim_string(joined.as_str())
}

fn first_section_body(sections: &Vec<ReadmeSection>, title: &str) -> (r: Option<String>)
    ensures
        match r {
            Some(b) => first_section(sections_view(sections@), title@) == Some(b@),
            None => first_section(sections_view(sections@), title@) is None,
        },
{
    let ghost ss = sections_view(sections@);
    let mut i: usize = 0;
    assert(ss.skip(0) =~= ss);
    while i < sections.len()
        invariant
            i <= sections@.len(),
            ss == sections_view(sections@),
            first_section(ss, title@) == first_section(ss.skip(i as int), title@),
        decreases sections.len() - i,
    {
        assert(ss.skip(i as int)[0] == section_view(sections@[i as int]));
        assert(ss.skip(i as int).drop_first() =~= ss.skip(i + 1));
        if crate::text::str_eq(sections[i].title.as_str(), title) {
            return Some(normalize_section_body(&sections[i].body));
        }
        i += 1;
    }
    assert(ss.skip(sections.len() as int) =~= Seq::<(Seq<char>, Seq<Seq<char>>)>::empty());
    None
}

fn last_section_body(sections: &Vec<ReadmeSection>, title: &str) -> (r: Option<String>)
    ensures
        match r {
            Some(b) => last_section(sections_view(sections@), title@) == Some(b@),
            None => last_section(sections_view(sections@), title@) is None,
        },
{
    let ghost ss = sections_view(sections@);
    let mut i: usize = sections.len();
    assert(ss.take(i as int) =~= ss);
    while i > 0
        invariant
            i <= sections@.len(),
            ss == sections_view(sections@),
            last_section(ss, title@) == last_section(ss.take(i as int), title@),
        decreases i,
    {
        assert(ss.take(i as int).last() == section_view(sections@[i - 1]));
        assert(ss.take(i as int).drop_last() =~= ss.take(i - 1));
        if crate::text::str_eq(sections[i - 1].title.as_str(), title) {
            return Some(normalize_section_body(&sections[i - 1].body));
        }
        i -= 1;
    }
    assert(ss.take(0) =~= Seq::<(Seq<char>, Seq<Seq<char>>)>::empty());
    None
}

fn opt_str_eq(a: &Option<String>, b: &Option<String>) -> (r: bool)
    ensures
        r == (match (a, b) {
            (Some(x), Some(y)) => x@ == y@,
            (None, None) => true,
            _ => false,
        }),
{
    match (a, b) {
        (Some(x), Some(y)) => crate::text::str_eq(x.as_str(), y.as_str()),
        (None, None) => true,
        _ => false,
    }
}

/// The text of the template with its values and the AI values, failing parts
/// left empty (see [`skeleton`]).
pub fn render_skeleton(fragments: &Vec<TemplateFragment>, values: &ValueMap, ai_values: &BTreeMap<usize, String>, year: i32) -> (r: String)
    ensures
        frags_safe(frags_view(fragments@)) ==> r@ == skeleton(frags_view(fragments@), values@, ai_values@, year as int),
{
    let ghost fs = frags_view(fragments@);
    let mut out = String::new();
    let mut i: usize = 0;
    assert(fs.take(0) =~= Seq::<FragmentView>::empty());
    while i < fragments.len()
        invariant
            i <= fragments@.len(),
            fs == frags_view(fragments@),
            frags_safe(fs) ==> out@ == skeleton(fs.take(i as int), values@, ai_values@, year as int),
        decreases fragments.len() - i,
    {
        assert(fs.take(i + 1).drop_last() =~= fs.take(i as int));
        assert(fs.take(i + 1).last() == fragments@[i as int].view());
        assert(fs[i as int] == fragments@[i as int].view());
        match &fragments[i] {
            TemplateFragment::Literal(t) => push_str(&mut out, t.as_str()),
            TemplateFragment::Text(p) => {
                match values.get(p.name.as_str()) {
                    Some(v) => push_str(&mut out, v.as_str()),
                    None => {
                        assert(out@ + Seq::<char>::empty() =~= out@);
                    },
                }
            },
            TemplateFragment::Expression(e) => {
                match render_expression(e.as_str(), values, year) {
                    Ok(s) => push_str(&mut out, s.as_str()),
                    Err(_) => {
                        assert(out@ + Seq::<char>::empty() =~= out@);
                    },
                }
            },
            TemplateFragment::Ai(p) => {
                match ai_values.get(&p.index) {
                    Some(v) => push_str(&mut out, v.as_str()),
                    None => {
                        assert(out@ + Seq::<char>::empty() =~= out@);
                    },
                }
            },
        }
        i += 1;
    }
    assert(fs.take(fragments@.len() as int) =~= fs);
    out
}

/// Appends the check of one static section (see [`static_finding`]).
fn check_static_section(out: &mut Vec<ReadmeVerificationFinding>, expected: &ParsedReadme, parsed: &ParsedReadme, title: &str)
    ensures
        findings_view(final(out)@) == findings_view(old(out)@) + static_finding(expected@, parsed@, title@),
{
    let e = last_section_body(&expected.sections, title);
    let a = first_section_body(&parsed.sections, title);
    let ghost start = findings_view(out@);
    if !opt_str_eq(&e, &a) {
        let mut m = title.to_owned();
        push_str(&mut m, " must stay identical to the template");
        let f = ReadmeVerificationFinding { fragment_index: None, fragment_label: Some(title.to_owned()), repairable: false, message: m };
        let ghost fv = f@;
        out.push(f);
        assert(findings_view(out@) =~= start.push(fv));
    }
    assert(findings_view(out@) =~= start + static_finding(expected@, parsed@, title@));
}

impl PreparedTemplate {
    /// Checks a rendered README in the year `year` (see [`readme_findings`]).
    pub fn verify_readme_in_year(
        &self,
        rendered: &str,
        context: &ContextBundle,
        ai_values: &BTreeMap<usize, String>,
        year: i32,
    ) -> (r: ReadmeVerificationReport)
        requires
            self.fragments@.len() < usize::MAX,
        ensures
            frags_safe(frags_view(self.fragments@)) ==> findings_view(r.findings@) == readme_findings(
                *self,
                rendered@,
                *context,
                ai_values@,
                year as int,
            ),
    {
        if !self.is_readme() {
            let findings: Vec<ReadmeVerificationFinding> = Vec::new();
            assert(findings_view(findings@) =~= Seq::<FindingView>::empty());
            return ReadmeVerificationReport { findings };
        }
        let fragments = self.ai_fragments();
        let parsed = parse_readme_document(rendered);
        let mut findings = verify_readme_structure(rendered, &parsed);
        verify_badges(&mut findings, &parsed, context, &fragments);
        verify_fragment_values(&mut findings, &fragments, context, ai_values);
        let skeleton_text = render_skeleton(&self.fragments, &self.values, ai_values, year);
        let expected = parse_readme_document(skeleton_text.as_str());
        let ghost before_static = findings_view(findings@);
        check_static_section(&mut findings, &expected, &parsed, "Contributing");
        check_static_section(&mut findings, &expected, &parsed, "License");
        assert(ai_frags_view(fragments@).len() == fragments@.len());
        assert(frags_safe(frags_view(self.fragments@)) ==> findings_view(findings@) =~= readme_findings(
            *self,
            rendered@,
            *context,
            ai_values@,
            year as int,
        ));
        ReadmeVerificationReport { findings }
    }

    /// Checks a rendered README, with this year's date for expressions.
    pub fn verify_readme(&self, rendered: &str, context: &ContextBundle, ai_values: &BTreeMap<usize, String>) -> (r: ReadmeVerificationReport)
        requires
            self.fragments@.len() < usize::MAX,
        ensures
            frags_safe(frags_view(self.fragments@)) ==> exists|year: i32| findings_view(r.findings@) == readme_findings(
                *self,
                rendered@,
                *context,
                ai_values@,
                year as int,
            ),
    {
        let year = crate::render::current_year();
        self.verify_readme_in_year(rendered, context, ai_values, year)
    }
}


/// A README whose shape passes has one H1 title first and exactly the expected
/// sections, and no template syntax left.
pub proof fn law_passing_structure(rendered: Seq<char>, p: ParsedView)
    requires
        structure_findings(rendered, p).len() == 0,
    ensures
        p.first_h1,
        p.h1_count == 1,
        titles(p.sections) == expected_titles(),
        !contains_seq(rendered, "{{"@) && !contains_seq(rendered, "}}"@) && !contains_seq(rendered, "[[NANITE_"@),
{
}

} // verus!

//! Documents that open with YAML frontmatter between `---` lines.
use crate::text::{has_prefix, occurs_at, str_starts_with};
use vstd::prelude::*;

verus! {

#[verifier::external_type_specification]
#[verifier::external_body]
pub struct ExYamlValue(serde_yaml::Value);

/// A document's metadata and the body after it.
pub struct FrontmatterDocument<T> {
    pub metadata: T,
    pub body: String,
}

/// Why a document has no frontmatter.
#[derive(Debug, Clone, Copy, PartialEq, Eq, Structural)]
pub enum FrontmatterSplitError {
    /// The document does not start with `---\n`.
    MissingStart,
    /// No `\n---\n` closes the frontmatter.
    MissingEnd,
}

/// The first position where `p` occurs in `s`.
pub open spec fn first_occurrence(s: Seq<char>, p: Seq<char>) -> Option<int> {
    if exists|i: int| occurs_at(s, p, i) {
        Some(choose|i: int| occurs_at(s, p, i) && forall|j: int| 0 <= j < i ==> !occurs_at(s, p, j))
    } else {
        None
    }
}

/// A document split into frontmatter and body: after the opening `---\n`, up to
/// the first `\n---\n`, and the rest.
pub open spec fn split_spec(source: Seq<char>) -> Result<(Seq<char>, Seq<char>), FrontmatterSplitError> {
    if !has_prefix(source, "---\n"@) {
        Err(FrontmatterSplitError::MissingStart)
    } else {
        let rest = source.skip(4);
        match first_occurrence(rest, "\n---\n"@) {
            None => Err(FrontmatterSplitError::MissingEnd),
            Some(i) => Ok((rest.take(i), rest.skip(i + 5))),
        }
    }
}

/// Splits a document into frontmatter and body (see [`split_spec`]).
pub fn split_frontmatter(source: &str) -> (r: Result<(String, String), FrontmatterSplitError>)
    ensures
        match r {
            Ok((f, b)) => split_spec(source@) == Ok::<(Seq<char>, Seq<char>), FrontmatterSplitError>((f@, b@)),
            Err(e) => split_spec(source@) == Err::<(Seq<char>, Seq<char>), FrontmatterSplitError>(e),
        },
{
    if !str_starts_with(source, "---\n") {
        return Err(FrontmatterSplitError::MissingStart);
    }
    proof {
        reveal_strlit("---\n");
        reveal_strlit("\n---\n");
    }
    let v = crate::text::to_chars(source);
    let rest = crate::text::string_from_range(&v, 4, v.len());
    assert(v@.subrange(4, v@.len() as int) =~= source@.skip(4));
    let rv = crate::text::to_chars(rest.as_str());
    let pat = crate::text::to_chars("\n---\n");
    let mut i: usize = 0;
    while i < rv.len()
        invariant
            i <= rv@.len(),
            rv@ == source@.skip(4),
            has_prefix(source@, "---\n"@),
            pat@ == "\n---\n"@,
            forall|j: int| 0 <= j < i ==> !occurs_at(rv@, pat@, j),
        decreases rv.len() - i,
    {
        if found_at(&rv, &pat, i) {
            proof {
                reveal_strlit("\n---\n");
                assert(pat@.len() == 5);
            }
            let f = crate::text::string_from_range(&rv, 0, i);
            let b = crate::text::string_from_range(&rv, i + 5, rv.len());
            proof {
                let c = choose|c: int| occurs_at(rv@, pat@, c) && forall|j: int| 0 <= j < c ==> !occurs_at(rv@, pat@, j);
                assert(occurs_at(rv@, pat@, i as int));
                if c < i {
                } else if c > i {
                }
                assert(c == i);
                assert(rv@.subrange(0, i as int) =~= rv@.take(i as int));
                assert(rv@.subrange(i + 5, rv@.len() as int) =~= rv@.skip(i + 5));
            }
            return Ok((f, b));
        }
        i += 1;
    }
    proof {
        assert forall|j: int| !occurs_at(rv@, pat@, j) by {
            if j >= rv@.len() {
            }
        }
    }
    Err(FrontmatterSplitError::MissingEnd)
}

/// Whether `p` occurs in `v` at `i`.
fn found_at(v: &Vec<char>, p: &Vec<char>, i: usize) -> (r: bool)
    requires
        i <= v@.len(),
    ensures
        r == occurs_at(v@, p@, i as int),
{
    let n = v.len();
    if p.len() > n - i {
        return false;
    }
    let mut k: usize = 0;
    while k < p.len()
        invariant
            k <= p@.len(),
            n == v@.len(),
            i <= v@.len(),
            i + p@.len() <= v@.len(),
            forall|j: int| 0 <= j < k ==> v@[i + j] == p@[j],
        decreases p.len() - k,
    {
        if v[i + k] != p[k] {
            assert(v@.subrange(i as int, i + p@.len())[k as int] != p@[k as int]);
            return false;
        }
        k += 1;
    }
    assert(v@.subrange(i as int, i + p@.len()) =~= p@);
    true
}

/// The message `serde_yaml` gives for a text that does not parse as YAML, as
/// `serde_yaml::from_str` into a `serde_yaml::Value` reports it; `None` where
/// the text parses.
pub uninterp spec fn yaml_error(text: Seq<char>) -> Option<Seq<char>>;

/// `serde_yaml::from_str` into a YAML value, with the error's text: it fails
/// exactly where [`yaml_error`] names a message, and with that message. What
/// a document parses to is not stated.
#[verifier::external_body]
pub(crate) fn parse_yaml_value(text: &str) -> (r: Result<serde_yaml::Value, String>)
    ensures
        match r {
            Ok(_) => yaml_error(text@) is None,
            Err(m) => yaml_error(text@) == Some(m@),
        },
{
    serde_yaml::from_str::<serde_yaml::Value>(text).map_err(|e| e.to_string())
}

/// Why a document could not be read.
pub enum FrontmatterError {
    Split(FrontmatterSplitError),
    Yaml(String),
}

impl FrontmatterError {
    /// The error's message.
    pub fn message(&self) -> (m: String)
        ensures
            self matches FrontmatterError::Split(FrontmatterSplitError::MissingStart) ==> m@ == "missing frontmatter start"@,
            self matches FrontmatterError::Split(FrontmatterSplitError::MissingEnd) ==> m@ == "missing frontmatter end"@,
            self matches FrontmatterError::Yaml(t) ==> m@ == t@,
    {
        match self {
            FrontmatterError::Split(FrontmatterSplitError::MissingStart) => "missing frontmatter start".to_owned(),
            FrontmatterError::Split(FrontmatterSplitError::MissingEnd) => "missing frontmatter end".to_owned(),
            FrontmatterError::Yaml(t) => t.clone(),
        }
    }
}

/// Reads a document's YAML frontmatter and body: the split of [`split_spec`],
/// then the frontmatter parsed as YAML.
pub fn parse_frontmatter(source: &str) -> (r: Result<FrontmatterDocument<serde_yaml::Value>, FrontmatterError>)
    ensures
        match split_spec(source@) {
            Err(e) => r matches Err(FrontmatterError::Split(x)) && x == e,
            Ok((front, body)) => match yaml_error(front) {
                None => r matches Ok(d) && d.body@ == body,
                Some(m) => r matches Err(FrontmatterError::Yaml(t)) && t@ == m,
            },
        },
{
    match split_frontmatter(source) {
        Err(e) => Err(FrontmatterError::Split(e)),
        Ok((front, body)) => match parse_yaml_value(front.as_str()) {
            Ok(metadata) => Ok(FrontmatterDocument { metadata, body }),
            Err(t) => Err(FrontmatterError::Yaml(t)),
        },
    }
}


/// Where `p` occurs in `s`, it has a first occurrence.
pub proof fn lemma_first_occurrence_exists(s: Seq<char>, p: Seq<char>, i: int)
    requires
        occurs_at(s, p, i),
    ensures
        exists|m: int| occurs_at(s, p, m) && forall|j: int| 0 <= j < m ==> !occurs_at(s, p, j),
    decreases i,
{
    if exists|j: int| 0 <= j < i && occurs_at(s, p, j) {
        let j = choose|j: int| 0 <= j < i && occurs_at(s, p, j);
        lemma_first_occurrence_exists(s, p, j);
    } else {
        assert(occurs_at(s, p, i) && forall|j: int| 0 <= j < i ==> !occurs_at(s, p, j));
    }
}

/// A split document is its frontmatter and body put back between the markers:
/// `---\n`, the frontmatter, `\n---\n`, the body.
pub proof fn law_split_round_trip(source: Seq<char>)
    requires
        split_spec(source) is Ok,
    ensures
        split_spec(source) matches Ok((f, b)) && source == "---\n"@ + f + "\n---\n"@ + b,
{
    reveal_strlit("---\n");
    reveal_strlit("\n---\n");
    let rest = source.skip(4);
    let w = choose|w: int| occurs_at(rest, "\n---\n"@, w);
    lemma_first_occurrence_exists(rest, "\n---\n"@, w);
    let i = first_occurrence(rest, "\n---\n"@).unwrap();
    assert(occurs_at(rest, "\n---\n"@, i));
    assert(source.subrange(0, 4) == "---\n"@);
    assert(rest.subrange(i, i + 5) == "\n---\n"@);
    assert(source =~= "---\n"@ + rest.take(i) + "\n---\n"@ + rest.skip(i + 5));
}

} // verus!

//! Template bundles from the text of their files: each file's frontmatter names
//! its output file and its body is parsed into fragments; bundles and their
//! templates are put in order.
use crate::bundle::{TemplateBundle, TemplateRepository, TemplateVariant};
use crate::frontmatter::{parse_yaml_value, split_frontmatter, split_spec, yaml_error, FrontmatterSplitError};
use crate::paths::{camino_components, lemma_components_lt_order, path_before, path_lt};
use crate::templates::{
    frags_view, parse_rest, parse_template_fragments, template_failure_message, FragmentView, TemplateError,
    TemplateFailure,
};
use crate::text::push_str;
use crate::value_map::{lemma_lex_lt_asymmetric, lemma_lex_lt_transitive, lex_lt, str_lt};
use vstd::prelude::*;

verus! {

/// The string `serde_yaml` reads as the field `filename` of a frontmatter
/// text: `None` where the text does not parse as YAML, has no such field, or
/// the field is no string.
pub uninterp spec fn yaml_filename(front: Seq<char>) -> Option<Seq<char>>;

/// `serde_yaml::from_str` into a YAML value, then its `filename` field as a
/// string (see [`yaml_filename`]).
#[verifier::external_body]
fn frontmatter_filename(front: &str) -> (r: Option<String>)
    ensures
        match r {
            Some(s) => yaml_filename(front@) == Some(s@),
            None => yaml_filename(front@) is None,
        },
{
    let value = serde_yaml::from_str::<serde_yaml::Value>(front).ok()?;
    let field = value.get("filename")?;
    field.as_str().map(str::to_owned)
}

/// Why a template file could not be read. The frontmatter errors carry the
/// file's path; a template error carries it within.
pub enum TemplateLoadError {
    /// The frontmatter markers are missing.
    Split(String, FrontmatterSplitError),
    /// The frontmatter is no YAML, with the parser's message.
    Yaml(String, String),
    /// The frontmatter names no output file.
    MissingFilename(String),
    /// The body is no template.
    Template(TemplateError),
}

/// A template load error as plain values.
pub enum LoadFailure {
    Split(FrontmatterSplitError),
    Yaml(Seq<char>),
    MissingFilename,
    Template(TemplateFailure),
}

impl TemplateLoadError {
    pub open spec fn view(&self) -> LoadFailure {
        match self {
            TemplateLoadError::Split(_, e) => LoadFailure::Split(*e),
            TemplateLoadError::Yaml(_, m) => LoadFailure::Yaml(m@),
            TemplateLoadError::MissingFilename(_) => LoadFailure::MissingFilename,
            TemplateLoadError::Template(e) => LoadFailure::Template(e.failure()),
        }
    }

    /// The path of the file that could not be read.
    pub open spec fn source_path(&self) -> Seq<char> {
        match self {
            TemplateLoadError::Split(p, _) => p@,
            TemplateLoadError::Yaml(p, _) => p@,
            TemplateLoadError::MissingFilename(p) => p@,
            TemplateLoadError::Template(e) => e.source_path(),
        }
    }

    /// The error's message: `failed to parse` and the path where the
    /// frontmatter could not be read, else the template error's message.
    pub fn message(&self) -> (m: String)
        ensures
            m@ == (match self@ {
                LoadFailure::Template(f) => template_failure_message(f, self.source_path()),
                _ => "failed to parse "@ + self.source_path(),
            }),
    {
        match self {
            TemplateLoadError::Template(e) => e.message(),
            TemplateLoadError::Split(p, _) | TemplateLoadError::Yaml(p, _) | TemplateLoadError::MissingFilename(p) => {
                let mut m = "failed to parse ".to_owned();
                push_str(&mut m, p.as_str());
                m
            },
        }
    }
}

/// A template file read from its text: the frontmatter split off and parsed,
/// its `filename` the output name, the body parsed into fragments.
#[verifier::opaque]
pub open spec fn template_source_spec(raw: Seq<char>) -> Result<(Seq<char>, Seq<FragmentView>), LoadFailure> {
    match split_spec(raw) {
        Err(e) => Err(LoadFailure::Split(e)),
        Ok((front, body)) => match yaml_error(front) {
            Some(m) => Err(LoadFailure::Yaml(m)),
            None => match yaml_filename(front) {
                None => Err(LoadFailure::MissingFilename),
                Some(name) => match parse_rest(body, 0) {
                    Ok(g) => Ok((name, g)),
                    Err(f) => Err(LoadFailure::Template(f)),
                },
            },
        },
    }
}

pub open spec fn load_view(r: Result<TemplateVariant, TemplateLoadError>) -> Result<(Seq<char>, Seq<FragmentView>), LoadFailure> {
    match r {
        Ok(t) => Ok((t.output_name@, frags_view(t.fragments@))),
        Err(e) => Err(e@),
    }
}

/// Reads one template file from its text (see [`template_source_spec`]); the
/// template keeps `source_path`.
#[verifier::rlimit(40)]
pub fn template_from_source(source_path: &str, raw: &str) -> (r: Result<TemplateVariant, TemplateLoadError>)
    ensures
        load_view(r) == template_source_spec(raw@),
        r matches Ok(t) ==> t.source_path@ == source_path@,
        r matches Err(e) ==> e.source_path() == source_path@,
{
    reveal(template_source_spec);
    let (front, body) = match split_frontmatter(raw) {
        Ok(parts) => parts,
        Err(e) => {
            return Err(TemplateLoadError::Split(source_path.to_owned(), e));
        },
    };
    match parse_yaml_value(front.as_str()) {
        Ok(_) => {},
        Err(m) => {
            return Err(TemplateLoadError::Yaml(source_path.to_owned(), m));
        },
    }
    let name = match frontmatter_filename(front.as_str()) {
        Some(n) => n,
        None => {
            return Err(TemplateLoadError::MissingFilename(source_path.to_owned()));
        },
    };
    match parse_template_fragments(body.as_str(), source_path) {
        Ok(fragments) => Ok(TemplateVariant { output_name: name, source_path: source_path.to_owned(), fragments }),
        Err(e) => Err(TemplateLoadError::Template(e)),
    }
}

/// Template `a` orders before template `b`: by output name, then by source
/// path.
pub open spec fn template_lt(a: TemplateVariant, b: TemplateVariant) -> bool {
    lex_lt(a.output_name@, b.output_name@) || (a.output_name@ == b.output_name@ && path_lt(
        a.source_path@,
        b.source_path@,
    ))
}

/// The templates are in order: none orders before an earlier one.
pub open spec fn templates_sorted(ts: Seq<TemplateVariant>) -> bool {
    forall|i: int, j: int| 0 <= i < j < ts.len() ==> !template_lt(#[trigger] ts[j], #[trigger] ts[i])
}

/// The bundles are in name order.
pub open spec fn bundles_sorted(bs: Seq<TemplateBundle>) -> bool {
    forall|i: int, j: int| 0 <= i < j < bs.len() ==> !lex_lt((#[trigger] bs[j]).name@, (#[trigger] bs[i]).name@)
}

proof fn lemma_template_lt_order(a: TemplateVariant, b: TemplateVariant, c: TemplateVariant)
    ensures
        template_lt(a, b) && template_lt(b, c) ==> template_lt(a, c),
        template_lt(a, b) ==> !template_lt(b, a),
{
    if lex_lt(a.output_name@, b.output_name@) && lex_lt(b.output_name@, c.output_name@) {
        lemma_lex_lt_transitive(a.output_name@, b.output_name@, c.output_name@);
    }
    if lex_lt(a.output_name@, b.output_name@) {
        lemma_lex_lt_asymmetric(a.output_name@, b.output_name@);
    }
    lemma_components_lt_order(
        camino_components(a.source_path@),
        camino_components(b.source_path@),
        camino_components(c.source_path@),
    );
}

/// Whether template `a` orders before template `b` (see [`template_lt`]).
fn template_before(a: &TemplateVariant, b: &TemplateVariant) -> (r: bool)
    ensures
        r == template_lt(*a, *b),
{
    if str_lt(a.output_name.as_str(), b.output_name.as_str()) {
        return true;
    }
    if !crate::text::str_eq(a.output_name.as_str(), b.output_name.as_str()) {
        return false;
    }
    path_before(a.source_path.as_str(), b.source_path.as_str())
}

/// The templates in order, the same templates as given.
pub fn sort_templates(templates: Vec<TemplateVariant>) -> (r: Vec<TemplateVariant>)
    ensures
        templates_sorted(r@),
        r@.to_multiset() == templates@.to_multiset(),
{
    broadcast use vstd::seq_lib::group_to_multiset_ensures;

    let ghost all = templates@;
    let mut rest = templates;
    let mut r: Vec<TemplateVariant> = Vec::new();
    while rest.len() > 0
        invariant
            templates_sorted(r@),
            r@.to_multiset().add(rest@.to_multiset()) == all.to_multiset(),
        decreases rest.len(),
    {
        let ghost before_rest = rest@;
        let ghost before_r = r@;
        let x = rest.remove(0);
        let mut k: usize = 0;
        while k < r.len() && !template_before(&x, &r[k])
            invariant
                k <= r@.len(),
                r@ == before_r,
                forall|j: int| 0 <= j < k ==> !template_lt(x, #[trigger] r@[j]),
            decreases r.len() - k,
        {
            k += 1;
        }
        proof {
            let n = r@.insert(k as int, x);
            assert forall|i: int, j: int| 0 <= i < j < n.len() implies !template_lt(#[trigger] n[j], #[trigger] n[i]) by {
                if i == k && j > k {
                    lemma_template_lt_order(r@[j - 1], x, r@[k as int]);
                    lemma_template_lt_order(x, r@[k as int], r@[j - 1]);
                    assert(n[j] == r@[j - 1]);
                    if j - 1 > k {
                        assert(!template_lt(r@[j - 1], r@[k as int]));
                    }
                } else if i < k && j == k {
                    assert(n[i] == r@[i]);
                } else if i < k && j > k {
                    assert(n[i] == r@[i] && n[j] == r@[j - 1]);
                } else if i < k {
                    assert(n[i] == r@[i] && n[j] == r@[j]);
                } else if i > k {
                    assert(n[i] == r@[i - 1] && n[j] == r@[j - 1]);
                }
            }
            vstd::seq_lib::to_multiset_insert(r@, k as int, x);
            vstd::seq_lib::to_multiset_remove(before_rest, 0);
            assert(before_rest[0] == x);
            vstd::seq_lib::to_multiset_contains(before_rest, x);
        }
        r.insert(k, x);
        assert(r@.to_multiset().add(rest@.to_multiset()) =~= all.to_multiset());
    }
    assert(rest@.to_multiset() =~= vstd::multiset::Multiset::empty());
    assert(r@.to_multiset() =~= all.to_multiset());
    r
}

/// The bundles in name order, the same bundles as given.
pub fn sort_bundles(bundles: Vec<TemplateBundle>) -> (r: Vec<TemplateBundle>)
    ensures
        bundles_sorted(r@),
        r@.to_multiset() == bundles@.to_multiset(),
{
    broadcast use vstd::seq_lib::group_to_multiset_ensures;

    let ghost all = bundles@;
    let mut rest = bundles;
    let mut r: Vec<TemplateBundle> = Vec::new();
    while rest.len() > 0
        invariant
            bundles_sorted(r@),
            r@.to_multiset().add(rest@.to_multiset()) == all.to_multiset(),
        decreases rest.len(),
    {
        let ghost before_rest = rest@;
        let ghost before_r = r@;
        let x = rest.remove(0);
        let mut k: usize = 0;
        while k < r.len() && !str_lt(x.name.as_str(), r[k].name.as_str())
            invariant
                k <= r@.len(),
                r@ == before_r,
                forall|j: int| 0 <= j < k ==> !lex_lt(x.name@, (#[trigger] r@[j]).name@),
            decreases r.len() - k,
        {
            k += 1;
        }
        proof {
            let n = r@.insert(k as int, x);
            assert forall|i: int, j: int| 0 <= i < j < n.len() implies !lex_lt((#[trigger] n[j]).name@, (
            #[trigger] n[i]).name@) by {
                if i == k && j > k {
                    let y = r@[j - 1];
                    assert(n[j] == y);
                    if lex_lt(y.name@, x.name@) {
                        lemma_lex_lt_transitive(y.name@, x.name@, r@[k as int].name@);
                        if j - 1 == k {
                            lemma_lex_lt_asymmetric(y.name@, x.name@);
                        }
                    }
                } else if i < k && j == k {
                    assert(n[i] == r@[i]);
                } else if i < k && j > k {
                    assert(n[i] == r@[i] && n[j] == r@[j - 1]);
                } else if i < k {
                    assert(n[i] == r@[i] && n[j] == r@[j]);
                } else if i > k {
                    assert(n[i] == r@[i - 1] && n[j] == r@[j - 1]);
                }
            }
            vstd::seq_lib::to_multiset_insert(r@, k as int, x);
            vstd::seq_lib::to_multiset_remove(before_rest, 0);
            assert(before_rest[0] == x);
            vstd::seq_lib::to_multiset_contains(before_rest, x);
        }
        r.insert(k, x);
        assert(r@.to_multiset().add(rest@.to_multiset()) =~= all.to_multiset());
    }
    assert(rest@.to_multiset() =~= vstd::multiset::Multiset::empty());
    assert(r@.to_multiset() =~= all.to_multiset());
    r
}

/// The files of one bundle directory: its name and path, and each template
/// file's path and text.
pub struct BundleSource {
    pub name: String,
    pub source_path: String,
    pub files: Vec<(String, String)>,
}

/// `b` is the bundle made of `src`: its name and path, one template for each
/// file, at least one, in order.
pub open spec fn bundle_from(b: TemplateBundle, src: BundleSource) -> bool {
    &&& b.name@ == src.name@
    &&& b.source_path@ == src.source_path@
    &&& b.templates@.len() == src.files@.len()
    &&& b.templates@.len() > 0
    &&& templates_sorted(b.templates@)
}

/// `b` is made of one of the sources.
pub open spec fn from_some_source(b: TemplateBundle, sources: Seq<BundleSource>) -> bool {
    exists|s: int| 0 <= s < sources.len() && bundle_from(b, #[trigger] sources[s])
}

/// The templates of a bundle directory's files, in the order given; the
/// first file that is refused ends the reading with its error.
fn templates_of_files(files: &Vec<(String, String)>) -> (r: Result<Vec<TemplateVariant>, TemplateLoadError>)
    ensures
        match r {
            Ok(ts) => {
                &&& ts@.len() == files@.len()
                &&& forall|g: int| 0 <= g < files@.len() ==> template_source_spec((#[trigger] files@[g]).1@) is Ok
            },
            Err(e) => exists|g: int| 0 <= g < files@.len() && template_source_spec((#[trigger] files@[g]).1@)
                == Err::<(Seq<char>, Seq<FragmentView>), LoadFailure>(e@) && e.source_path() == files@[g].0@,
        },
{
    let mut templates: Vec<TemplateVariant> = Vec::new();
    let mut f: usize = 0;
    while f < files.len()
        invariant
            f <= files@.len(),
            templates@.len() == f,
            forall|g: int| 0 <= g < f ==> template_source_spec((#[trigger] files@[g]).1@) is Ok,
        decreases files.len() - f,
    {
        match template_from_source(files[f].0.as_str(), files[f].1.as_str()) {
            Ok(t) => templates.push(t),
            Err(e) => {
                assert(template_source_spec(files@[f as int].1@) == Err::<(Seq<char>, Seq<FragmentView>), LoadFailure>(
                    e@,
                ));
                return Err(e);
            },
        }
        f += 1;
    }
    Ok(templates)
}

impl TemplateRepository {
    /// The repository of template bundles, from the text of their files: every
    /// file is read as a template (see [`template_from_source`]) and the first
    /// refusal ends the load; a directory without files gives no bundle; the
    /// templates of each bundle, and the bundles by name, are put in order.
    pub fn from_sources(sources: Vec<BundleSource>) -> (r: Result<TemplateRepository, TemplateLoadError>)
        ensures
            match r {
                Ok(repo) => {
                    &&& bundles_sorted(repo.bundles@)
                    &&& forall|b: int| 0 <= b < repo.bundles@.len() ==> from_some_source(
                        #[trigger] repo.bundles@[b],
                        sources@,
                    )
                    &&& forall|s: int, f: int| 0 <= s < sources@.len() && 0 <= f < sources@[s].files@.len()
                        ==> template_source_spec((#[trigger] sources@[s].files@[f]).1@) is Ok
                },
                Err(e) => exists|s: int, f: int| 0 <= s < sources@.len() && 0 <= f < sources@[s].files@.len()
                    && template_source_spec((#[trigger] sources@[s].files@[f]).1@) == Err::<
                    (Seq<char>, Seq<FragmentView>),
                    LoadFailure,
                >(e@) && e.source_path() == sources@[s].files@[f].0@,
            },
    {
        let mut bundles: Vec<TemplateBundle> = Vec::new();
        let mut s: usize = 0;
        while s < sources.len()
            invariant
                s <= sources@.len(),
                forall|b: int| 0 <= b < bundles@.len() ==> from_some_source(#[trigger] bundles@[b], sources@),
                forall|x: int, f: int| 0 <= x < s && 0 <= f < sources@[x].files@.len()
                    ==> template_source_spec((#[trigger] sources@[x].files@[f]).1@) is Ok,
            decreases sources.len() - s,
        {
            let src = &sources[s];
            let templates = match templates_of_files(&src.files) {
                Ok(ts) => ts,
                Err(e) => {
                    return Err(e);
                },
            };
            if templates.len() > 0 {
                let n = templates.len();
                let sorted = sort_templates(templates);
                assert(sorted@.len() == n) by {
                    vstd::seq_lib::to_multiset_len(sorted@);
                    vstd::seq_lib::to_multiset_len(templates@);
                }
                let b = TemplateBundle { name: src.name.clone(), source_path: src.source_path.clone(), templates: sorted };
                assert(bundle_from(b, sources@[s as int]));
                bundles.push(b);
            }
            s += 1;
        }
        let ghost unsorted = bundles@;
        let sorted = sort_bundles(bundles);
        assert forall|b: int| 0 <= b < sorted@.len() implies from_some_source(#[trigger] sorted@[b], sources@) by {
            broadcast use vstd::seq_lib::group_to_multiset_ensures;

            let x = sorted@[b];
            assert(sorted@.contains(x));
            vstd::seq_lib::to_multiset_contains(sorted@, x);
            vstd::seq_lib::to_multiset_contains(unsorted, x);
            let k = choose|k: int| 0 <= k < unsorted.len() && unsorted[k] == x;
            assert(from_some_source(unsorted[k], sources@));
        }
        Ok(TemplateRepository { bundles: sorted })
    }
}

} // verus!

//! The bundled `.gitignore` catalog: entry metadata derived from file paths,
//! selection of entries from a typed response, and rendering of the file.
use crate::naming::{humanize, humanize_name, slugify, slugify_name};
use crate::text::{
    from_chars, join, join_strings, lines, lines_of, lower_seq, parse_usize, parse_usize_str, push_str,
    split_char, split_on, str_eq, string_from_range, strs_view, to_ascii_lowercase, to_chars,
    trim, trim_end_char, trim_string, ascii_lower, is_ascii_upper, is_whitespace, trim_start, trim_end,
    unsigned_digits, all_digits,
};
use vstd::prelude::*;

verus! {

/// Where the bundled templates come from.
pub const GITIGNORE_UPSTREAM_REPO: &'static str = "github/gitignore";

/// One bundled `.gitignore` template.
#[derive(Clone, Copy, Debug, PartialEq, Eq)]
pub struct GitignoreTemplate {
    pub id: &'static str,
    pub label: &'static str,
    pub group: &'static str,
    pub display: &'static str,
    pub source_path: &'static str,
    pub body: &'static str,
}

/// Two templates with the same text in every field.
pub open spec fn same_template(a: GitignoreTemplate, b: GitignoreTemplate) -> bool {
    &&& a.id@ == b.id@
    &&& a.label@ == b.label@
    &&& a.group@ == b.group@
    &&& a.display@ == b.display@
    &&& a.source_path@ == b.source_path@
    &&& a.body@ == b.body@
}

impl GitignoreTemplate {
    pub fn new(
        id: &'static str,
        label: &'static str,
        group: &'static str,
        display: &'static str,
        source_path: &'static str,
        body: &'static str,
    ) -> (t: Self)
        ensures
            t == (GitignoreTemplate { id, label, group, display, source_path, body }),
    {
        GitignoreTemplate { id, label, group, display, source_path, body }
    }
}

/// Field-by-field comparison of two templates.
pub fn templates_equal(a: &GitignoreTemplate, b: &GitignoreTemplate) -> (r: bool)
    ensures
        r == same_template(*a, *b),
{
    str_eq(a.id, b.id) && str_eq(a.label, b.label) && str_eq(a.group, b.group) && str_eq(
        a.display,
        b.display,
    ) && str_eq(a.source_path, b.source_path) && str_eq(a.body, b.body)
}

/// The bundled catalog, sorted by label, then group, then id.
pub open spec fn catalog_spec() -> Seq<GitignoreTemplate> {
    seq![
        GitignoreTemplate {
            id: "root/go",
            label: "go",
            group: "root",
            display: "go [root]",
            source_path: "Go.gitignore",
            body: "# If you prefer the allow list template instead of the deny list, see community template:\n# https://github.com/github/gitignore/blob/main/community/Golang/Go.AllowList.gitignore\n#\n# Binaries for programs and plugins\n*.exe\n*.exe~\n*.dll\n*.so\n*.dylib\n\n# Test binary, built with `go test -c`\n*.test\n\n# Output of the go coverage tool, specifically when used with LiteIDE\n*.out\n\n# Dependency directories (remove the comment below to include it)\n# vendor/\n\n# Go workspace file\ngo.work\ngo.work.sum\n\n# env file\n.env\n",
        },
        GitignoreTemplate {
            id: "root/java",
            label: "java",
            group: "root",
            display: "java [root]",
            source_path: "Java.gitignore",
            body: "# Compiled class file\n*.class\n\n# Log file\n*.log\n\n# BlueJ files\n*.ctxt\n\n# Mobile Tools for Java (J2ME)\n.mtj.tmp/\n\n# Package Files #\n*.jar\n*.war\n*.nar\n*.ear\n*.zip\n*.tar.gz\n*.rar\n\n# virtual machine crash logs, see http://www.java.com/en/download/help/error_hotspot.xml\nhs_err_pid*\nreplay_pid*\n",
        },
        GitignoreTemplate {
            id: "root/kotlin",
            label: "kotlin",
            group: "root",
            display: "kotlin [root]",
            source_path: "Kotlin.gitignore",
            body: "# Compiled class file\n*.class\n\n# Log file\n*.log\n\n# BlueJ files\n*.ctxt\n\n# Mobile Tools for Java (J2ME)\n.mtj.tmp/\n\n# Package Files #\n*.jar\n*.war\n*.nar\n*.ear\n*.zip\n*.tar.gz\n*.rar\n\n# virtual machine crash logs, see http://www.java.com/en/download/help/error_hotspot.xml\nhs_err_pid*\nreplay_pid*\n\n# Kotlin Gradle plugin data, see https://kotlinlang.org/docs/whatsnew20.html#new-directory-for-kotlin-data-in-gradle-projects\n.kotlin/\n",
        },
        GitignoreTemplate {
            id: "root/node",
            label: "node",
            group: "root",
            display: "node [root]",
            source_path: "Node.gitignore",
            body: "# Logs\nlogs\n*.log\nnpm-debug.log*\nyarn-debug.log*\nyarn-error.log*\nlerna-debug.log*\n\n# Diagnostic reports (https://nodejs.org/api/report.html)\nreport.[0-9]*.[0-9]*.[0-9]*.[0-9]*.json\n\n# Runtime data\npids\n*.pid\n*.seed\n*.pid.lock\n\n# Coverage directory used by tools like istanbul\ncoverage\n*.lcov\n\n# Dependency directories\nnode_modules/\njspm_packages/\n\n# Optional npm cache directory\n.npm\n\n# Optional eslint cache\n.eslintcache\n\n# dotenv environment variable files\n.env\n.env.development.local\n.env.test.local\n.env.production.local\n.env.local\n\n# Next.js build output\n.next\nout\n\n# Nuxt.js build / generate output\n.nuxt\ndist\n",
        },
        GitignoreTemplate {
            id: "root/python",
            label: "python",
            group: "root",
            display: "python [root]",
            source_path: "Python.gitignore",
            body: "# Byte-compiled / optimized / DLL files\n__pycache__/\n*.py[codz]\n*$py.class\n\n# C extensions\n*.so\n\n# Distribution / packaging\n.Python\nbuild/\ndevelop-eggs/\ndist/\ndownloads/\neggs/\n.eggs/\nlib/\nlib64/\nparts/\nsdist/\nvar/\nwheels/\nshare/python-wheels/\n*.egg-info/\n.installed.cfg\n*.egg\nMANIFEST\n\n# Unit test / coverage reports\nhtmlcov/\n.tox/\n.nox/\n.coverage\n.coverage.*\n.cache\nnosetests.xml\ncoverage.xml\n*.cover\n.hypothesis/\n.pytest_cache/\n\n# Environments\n.env\n.venv\nenv/\nvenv/\nENV/\n",
        },
        GitignoreTemplate {
            id: "root/rust",
            label: "rust",
            group: "root",
            display: "rust [root]",
            source_path: "Rust.gitignore",
            body: "# Generated by Cargo\n# will have compiled files and executables\ndebug/\ntarget/\n\n# These are backup files generated by rustfmt\n**/*.rs.bk\n\n# MSVC Windows builds of rustc generate these, which store debugging information\n*.pdb\n\n# Generated by cargo mutants\n# Contains mutation testing data\n**/mutants.out*/\n",
        },
    ]
}

/// The bundled catalog of templates.
pub fn catalog() -> (out: Vec<GitignoreTemplate>)
    ensures
        out@ == catalog_spec(),
{
    vec![
        GitignoreTemplate {
            id: "root/go",
            label: "go",
            group: "root",
            display: "go [root]",
            source_path: "Go.gitignore",
            body: "# If you prefer the allow list template instead of the deny list, see community template:\n# https://github.com/github/gitignore/blob/main/community/Golang/Go.AllowList.gitignore\n#\n# Binaries for programs and plugins\n*.exe\n*.exe~\n*.dll\n*.so\n*.dylib\n\n# Test binary, built with `go test -c`\n*.test\n\n# Output of the go coverage tool, specifically when used with LiteIDE\n*.out\n\n# Dependency directories (remove the comment below to include it)\n# vendor/\n\n# Go workspace file\ngo.work\ngo.work.sum\n\n# env file\n.env\n",
        },
        GitignoreTemplate {
            id: "root/java",
            label: "java",
            group: "root",
            display: "java [root]",
            source_path: "Java.gitignore",
            body: "# Compiled class file\n*.class\n\n# Log file\n*.log\n\n# BlueJ files\n*.ctxt\n\n# Mobile Tools for Java (J2ME)\n.mtj.tmp/\n\n# Package Files #\n*.jar\n*.war\n*.nar\n*.ear\n*.zip\n*.tar.gz\n*.rar\n\n# virtual machine crash logs, see http://www.java.com/en/download/help/error_hotspot.xml\nhs_err_pid*\nreplay_pid*\n",
        },
        GitignoreTemplate {
            id: "root/kotlin",
            label: "kotlin",
            group: "root",
            display: "kotlin [root]",
            source_path: "Kotlin.gitignore",
            body: "# Compiled class file\n*.class\n\n# Log file\n*.log\n\n# BlueJ files\n*.ctxt\n\n# Mobile Tools for Java (J2ME)\n.mtj.tmp/\n\n# Package Files #\n*.jar\n*.war\n*.nar\n*.ear\n*.zip\n*.tar.gz\n*.rar\n\n# virtual machine crash logs, see http://www.java.com/en/download/help/error_hotspot.xml\nhs_err_pid*\nreplay_pid*\n\n# Kotlin Gradle plugin data, see https://kotlinlang.org/docs/whatsnew20.html#new-directory-for-kotlin-data-in-gradle-projects\n.kotlin/\n",
        },
        GitignoreTemplate {
            id: "root/node",
            label: "node",
            group: "root",
            display: "node [root]",
            source_path: "Node.gitignore",
            body: "# Logs\nlogs\n*.log\nnpm-debug.log*\nyarn-debug.log*\nyarn-error.log*\nlerna-debug.log*\n\n# Diagnostic reports (https://nodejs.org/api/report.html)\nreport.[0-9]*.[0-9]*.[0-9]*.[0-9]*.json\n\n# Runtime data\npids\n*.pid\n*.seed\n*.pid.lock\n\n# Coverage directory used by tools like istanbul\ncoverage\n*.lcov\n\n# Dependency directories\nnode_modules/\njspm_packages/\n\n# Optional npm cache directory\n.npm\n\n# Optional eslint cache\n.eslintcache\n\n# dotenv environment variable files\n.env\n.env.development.local\n.env.test.local\n.env.production.local\n.env.local\n\n# Next.js build output\n.next\nout\n\n# Nuxt.js build / generate output\n.nuxt\ndist\n",
        },
        GitignoreTemplate {
            id: "root/python",
            label: "python",
            group: "root",
            display: "python [root]",
            source_path: "Python.gitignore",
            body: "# Byte-compiled / optimized / DLL files\n__pycache__/\n*.py[codz]\n*$py.class\n\n# C extensions\n*.so\n\n# Distribution / packaging\n.Python\nbuild/\ndevelop-eggs/\ndist/\ndownloads/\neggs/\n.eggs/\nlib/\nlib64/\nparts/\nsdist/\nvar/\nwheels/\nshare/python-wheels/\n*.egg-info/\n.installed.cfg\n*.egg\nMANIFEST\n\n# Unit test / coverage reports\nhtmlcov/\n.tox/\n.nox/\n.coverage\n.coverage.*\n.cache\nnosetests.xml\ncoverage.xml\n*.cover\n.hypothesis/\n.pytest_cache/\n\n# Environments\n.env\n.venv\nenv/\nvenv/\nENV/\n",
        },
        GitignoreTemplate {
            id: "root/rust",
            label: "rust",
            group: "root",
            display: "rust [root]",
            source_path: "Rust.gitignore",
            body: "# Generated by Cargo\n# will have compiled files and executables\ndebug/\ntarget/\n\n# These are backup files generated by rustfmt\n**/*.rs.bk\n\n# MSVC Windows builds of rustc generate these, which store debugging information\n*.pdb\n\n# Generated by cargo mutants\n# Contains mutation testing data\n**/mutants.out*/\n",
        },
    ]
}

/// The text of a template that a selection token is compared with.
#[derive(Clone, Copy, Debug, PartialEq, Eq)]
pub enum TemplateField {
    Id,
    Label,
    Display,
    SourcePath,
}

pub open spec fn field_text(t: GitignoreTemplate, f: TemplateField) -> Seq<char> {
    match f {
        TemplateField::Id => t.id@,
        TemplateField::Label => t.label@,
        TemplateField::Display => t.display@,
        TemplateField::SourcePath => t.source_path@,
    }
}

fn field_str(t: &GitignoreTemplate, f: TemplateField) -> (s: &'static str)
    ensures
        s@ == field_text(*t, f),
{
    match f {
        TemplateField::Id => t.id,
        TemplateField::Label => t.label,
        TemplateField::Display => t.display,
        TemplateField::SourcePath => t.source_path,
    }
}

/// A selection token as compared: trimmed and ASCII-lowercased.
pub open spec fn normalize(s: Seq<char>) -> Seq<char> {
    lower_seq(trim(s))
}

/// Trims a token and lowercases its ASCII letters.
pub fn normalize_token(value: &str) -> (out: String)
    ensures
        out@ == normalize(value@),
{
    let trimmed = trim_string(value);
    to_ascii_lowercase(trimmed.as_str())
}

pub open spec fn field_matches(t: GitignoreTemplate, f: TemplateField, norm: Seq<char>) -> bool {
    normalize(field_text(t, f)) == norm
}

pub open spec fn is_first_match(
    ts: Seq<GitignoreTemplate>,
    f: TemplateField,
    norm: Seq<char>,
    i: int,
) -> bool {
    &&& 0 <= i < ts.len()
    &&& field_matches(ts[i], f, norm)
    &&& forall|j: int| 0 <= j < i ==> !field_matches(#[trigger] ts[j], f, norm)
}

/// The first template whose field, normalized, equals `norm`.
pub open spec fn first_match(ts: Seq<GitignoreTemplate>, f: TemplateField, norm: Seq<char>) -> Option<
    int,
> {
    if exists|i: int| is_first_match(ts, f, norm, i) {
        Some(choose|i: int| is_first_match(ts, f, norm, i))
    } else {
        None
    }
}

/// How many templates have a field that, normalized, equals `norm`.
pub open spec fn count_matches(ts: Seq<GitignoreTemplate>, f: TemplateField, norm: Seq<char>) -> nat
    decreases ts.len(),
{
    if ts.len() == 0 {
        0
    } else {
        count_matches(ts.drop_last(), f, norm) + if field_matches(ts.last(), f, norm) {
            1nat
        } else {
            0nat
        }
    }
}

proof fn lemma_first_match_unique(
    ts: Seq<GitignoreTemplate>,
    f: TemplateField,
    norm: Seq<char>,
    i: int,
)
    requires
        is_first_match(ts, f, norm, i),
    ensures
        first_match(ts, f, norm) == Some(i),
{
    let k = choose|k: int| is_first_match(ts, f, norm, k);
    if k < i {
        assert(!field_matches(ts[k], f, norm));
    } else if i < k {
        assert(!field_matches(ts[i], f, norm));
    }
}

proof fn lemma_no_match_count_zero(ts: Seq<GitignoreTemplate>, f: TemplateField, norm: Seq<char>)
    requires
        forall|j: int| 0 <= j < ts.len() ==> !field_matches(#[trigger] ts[j], f, norm),
    ensures
        count_matches(ts, f, norm) == 0,
    decreases ts.len(),
{
    if ts.len() > 0 {
        let p = ts.drop_last();
        assert forall|j: int| 0 <= j < p.len() implies !field_matches(#[trigger] p[j], f, norm) by {
            assert(p[j] == ts[j]);
        }
        lemma_no_match_count_zero(p, f, norm);
        assert(!field_matches(ts[ts.len() - 1], f, norm));
    }
}

/// Finds the first template whose field matches `norm`.
fn find_first_field(ts: &[GitignoreTemplate], f: TemplateField, norm: &str) -> (r: Option<usize>)
    ensures
        match r {
            Some(i) => first_match(ts@, f, norm@) == Some(i as int) && i < ts@.len(),
            None => first_match(ts@, f, norm@) is None && forall|j: int|
                0 <= j < ts@.len() ==> !field_matches(#[trigger] ts@[j], f, norm@),
        },
{
    let mut i: usize = 0;
    while i < ts.len()
        invariant
            i <= ts@.len(),
            forall|j: int| 0 <= j < i ==> !field_matches(#[trigger] ts@[j], f, norm@),
        decreases ts.len() - i,
    {
        let candidate = normalize_token(field_str(&ts[i], f));
        if str_eq(candidate.as_str(), norm) {
            proof {
                lemma_first_match_unique(ts@, f, norm@, i as int);
            }
            return Some(i);
        }
        i += 1;
    }
    None
}

/// Counts the templates whose field matches `norm`.
fn count_field(ts: &[GitignoreTemplate], f: TemplateField, norm: &str) -> (c: usize)
    ensures
        c == count_matches(ts@, f, norm@),
{
    let mut c: usize = 0;
    let mut i: usize = 0;
    while i < ts.len()
        invariant
            i <= ts@.len(),
            c == count_matches(ts@.take(i as int), f, norm@),
            c <= i,
        decreases ts.len() - i,
    {
        assert(ts@.take(i + 1).drop_last() =~= ts@.take(i as int));
        let candidate = normalize_token(field_str(&ts[i], f));
        if str_eq(candidate.as_str(), norm) {
            c += 1;
        }
        i += 1;
    }
    assert(ts@.take(ts.len() as int) =~= ts@);
    c
}

/// Why a selection was refused.
pub enum SelectionFailure {
    InvalidIndex(Seq<char>),
    NoMatch(Seq<char>),
    Ambiguous(Seq<char>),
    NothingSelected,
    NotInCatalog(Seq<char>),
}

/// An error from selecting or ordering templates.
#[derive(Debug, Clone, PartialEq, Eq)]
pub enum SelectionError {
    InvalidIndex(String),
    NoMatch(String),
    Ambiguous(String),
    NothingSelected,
    NotInCatalog(String),
}

/// The message shown for each refusal.
pub open spec fn failure_message(f: SelectionFailure) -> Seq<char> {
    match f {
        SelectionFailure::InvalidIndex(t) => "`"@ + t + "` is not a valid template index"@,
        SelectionFailure::NoMatch(t) => "`"@ + t + "` did not match any gitignore template"@,
        SelectionFailure::Ambiguous(t) => "`"@ + t
            + "` matched multiple templates; use the id, full label, or source path"@,
        SelectionFailure::NothingSelected => "select at least one template"@,
        SelectionFailure::NotInCatalog(id) => "selected template `"@ + id
            + "` was not in the catalog"@,
    }
}

impl SelectionError {
    pub open spec fn failure(&self) -> SelectionFailure {
        match self {
            SelectionError::InvalidIndex(t) => SelectionFailure::InvalidIndex(t@),
            SelectionError::NoMatch(t) => SelectionFailure::NoMatch(t@),
            SelectionError::Ambiguous(t) => SelectionFailure::Ambiguous(t@),
            SelectionError::NothingSelected => SelectionFailure::NothingSelected,
            SelectionError::NotInCatalog(id) => SelectionFailure::NotInCatalog(id@),
        }
    }

    /// The text of the error.
    pub fn message(&self) -> (m: String)
        ensures
            m@ == failure_message(self.failure()),
    {
        let mut m = String::new();
        match self {
            SelectionError::InvalidIndex(t) => {
                push_str(&mut m, "`");
                push_str(&mut m, t.as_str());
                push_str(&mut m, "` is not a valid template index");
            },
            SelectionError::NoMatch(t) => {
                push_str(&mut m, "`");
                push_str(&mut m, t.as_str());
                push_str(&mut m, "` did not match any gitignore template");
            },
            SelectionError::Ambiguous(t) => {
                push_str(&mut m, "`");
                push_str(&mut m, t.as_str());
                push_str(
                    &mut m,
                    "` matched multiple templates; use the id, full label, or source path",
                );
            },
            SelectionError::NothingSelected => {
                push_str(&mut m, "select at least one template");
            },
            SelectionError::NotInCatalog(id) => {
                push_str(&mut m, "selected template `");
                push_str(&mut m, id.as_str());
                push_str(&mut m, "` was not in the catalog");
            },
        }
        m
    }
}

/// Which template a token names: a 1-based index (`0` counts as `1`), else the
/// first template whose id, then full label, then source path matches; else the
/// one template whose label matches.
pub open spec fn resolve_token(ts: Seq<GitignoreTemplate>, token: Seq<char>) -> Result<
    int,
    SelectionFailure,
> {
    match parse_usize(token) {
        Some(n) => {
            let idx = if n == 0 {
                0int
            } else {
                n - 1
            };
            if idx < ts.len() {
                Ok(idx)
            } else {
                Err(SelectionFailure::InvalidIndex(token))
            }
        },
        None => {
            let norm = normalize(token);
            match first_match(ts, TemplateField::Id, norm) {
                Some(i) => Ok(i),
                None => match first_match(ts, TemplateField::Display, norm) {
                    Some(i) => Ok(i),
                    None => match first_match(ts, TemplateField::SourcePath, norm) {
                        Some(i) => Ok(i),
                        None => {
                            let c = count_matches(ts, TemplateField::Label, norm);
                            if c == 1 {
                                Ok(first_match(ts, TemplateField::Label, norm)->0)
                            } else if c == 0 {
                                Err(SelectionFailure::NoMatch(token))
                            } else {
                                Err(SelectionFailure::Ambiguous(token))
                            }
                        },
                    },
                },
            }
        },
    }
}

proof fn lemma_lower_char(c: char)
    ensures
        !is_ascii_upper(ascii_lower(c)),
        ascii_lower(ascii_lower(c)) == ascii_lower(c),
        is_whitespace(ascii_lower(c)) == is_whitespace(c),
        crate::text::is_ascii_digit(ascii_lower(c)) == crate::text::is_ascii_digit(c),
        (ascii_lower(c) == '+') == (c == '+'),
        crate::text::is_ascii_digit(c) ==> ascii_lower(c) == c,
        c == '+' ==> ascii_lower(c) == c,
{
}

proof fn lemma_trim_start_lower(s: Seq<char>)
    ensures
        trim_start(lower_seq(s)) == lower_seq(trim_start(s)),
    decreases s.len(),
{
    if s.len() > 0 {
        lemma_lower_char(s[0]);
        assert(lower_seq(s)[0] == ascii_lower(s[0]));
        assert(lower_seq(s).drop_first() =~= lower_seq(s.drop_first()));
        lemma_trim_start_lower(s.drop_first());
    } else {
        assert(lower_seq(s) =~= s);
    }
}

proof fn lemma_trim_end_lower(s: Seq<char>)
    ensures
        trim_end(lower_seq(s)) == lower_seq(trim_end(s)),
    decreases s.len(),
{
    if s.len() > 0 {
        lemma_lower_char(s.last());
        assert(lower_seq(s).last() == ascii_lower(s.last()));
        assert(lower_seq(s).drop_last() =~= lower_seq(s.drop_last()));
        lemma_trim_end_lower(s.drop_last());
    } else {
        assert(lower_seq(s) =~= s);
    }
}

proof fn lemma_parse_usize_lower(t: Seq<char>)
    ensures
        parse_usize(lower_seq(t)) == parse_usize(t),
{
    let l = lower_seq(t);
    let d = unsigned_digits(t);
    if t.len() > 0 {
        lemma_lower_char(t[0]);
        assert(l[0] == ascii_lower(t[0]));
    }
    let dl = unsigned_digits(l);
    assert(dl =~= lower_seq(d)) by {
        if t.len() > 0 && t[0] == '+' {
            assert(l.drop_first() =~= lower_seq(t.drop_first()));
        }
    }
    assert forall|i: int| 0 <= i < d.len() implies crate::text::is_ascii_digit(#[trigger] dl[i]) == crate::text::is_ascii_digit(d[i]) by {
        lemma_lower_char(d[i]);
    }
    if d.len() > 0 && all_digits(d) {
        assert forall|i: int| 0 <= i < d.len() implies #[trigger] dl[i] == d[i] by {
            lemma_lower_char(d[i]);
            assert(crate::text::is_ascii_digit(d[i]));
        }
        assert(dl =~= d);
    } else if d.len() > 0 {
        let k = choose|k: int| 0 <= k < d.len() && !crate::text::is_ascii_digit(#[trigger] d[k]);
        assert(!crate::text::is_ascii_digit(dl[k]));
    }
}

/// Selection is blind to ASCII case: a normalized token has no uppercase ASCII
/// letter and does not change when the token is lowercased first, and a token
/// resolves to the same template as its lowercased form (or both are refused).
pub proof fn law_selection_ignores_ascii_case(ts: Seq<GitignoreTemplate>, token: Seq<char>)
    ensures
        forall|i: int| 0 <= i < normalize(token).len() ==> !is_ascii_upper(#[trigger] normalize(token)[i]),
        normalize(lower_seq(token)) == normalize(token),
        match (resolve_token(ts, token), resolve_token(ts, lower_seq(token))) {
            (Ok(a), Ok(b)) => a == b,
            (Err(_), Err(_)) => true,
            _ => false,
        },
{
    let t = trim(token);
    assert forall|i: int| 0 <= i < normalize(token).len() implies !is_ascii_upper(#[trigger] normalize(token)[i]) by {
        lemma_lower_char(t[i]);
    }
    lemma_trim_start_lower(token);
    lemma_trim_end_lower(trim_start(token));
    assert(trim(lower_seq(token)) == lower_seq(t));
    assert(lower_seq(lower_seq(t)) =~= lower_seq(t)) by {
        assert forall|i: int| 0 <= i < t.len() implies #[trigger] lower_seq(lower_seq(t))[i] == lower_seq(t)[i] by {
            lemma_lower_char(t[i]);
        }
    }
    lemma_parse_usize_lower(token);
}

proof fn lemma_trim_start_skips_whitespace(ws: Seq<char>, s: Seq<char>)
    requires
        forall|i: int| 0 <= i < ws.len() ==> is_whitespace(#[trigger] ws[i]),
    ensures
        trim_start(ws + s) == trim_start(s),
    decreases ws.len(),
{
    if ws.len() > 0 {
        assert((ws + s)[0] == ws[0]);
        assert((ws + s).drop_first() =~= ws.drop_first() + s);
        let rest = ws.drop_first();
        assert forall|i: int| 0 <= i < rest.len() implies is_whitespace(#[trigger] rest[i]) by {
            assert(rest[i] == ws[i + 1]);
        }
        lemma_trim_start_skips_whitespace(rest, s);
    } else {
        assert(ws + s =~= s);
    }
}

proof fn lemma_trim_end_skips_whitespace(s: Seq<char>, ws: Seq<char>)
    requires
        forall|i: int| 0 <= i < ws.len() ==> is_whitespace(#[trigger] ws[i]),
    ensures
        trim_end(s + ws) == trim_end(s),
    decreases ws.len(),
{
    if ws.len() > 0 {
        assert((s + ws).last() == ws.last());
        assert((s + ws).drop_last() =~= s + ws.drop_last());
        let rest = ws.drop_last();
        assert forall|i: int| 0 <= i < rest.len() implies is_whitespace(#[trigger] rest[i]) by {
            assert(rest[i] == ws[i]);
        }
        lemma_trim_end_skips_whitespace(s, rest);
    } else {
        assert(s + ws =~= s);
    }
}

proof fn lemma_trim_start_of_concat(s: Seq<char>, t: Seq<char>)
    ensures
        trim_start(s + t) == (if trim_start(s).len() > 0 {
            trim_start(s) + t
        } else {
            trim_start(t)
        }),
    decreases s.len(),
{
    if s.len() == 0 {
        assert(s + t =~= t);
    } else {
        assert((s + t)[0] == s[0]);
        assert((s + t).drop_first() =~= s.drop_first() + t);
        lemma_trim_start_of_concat(s.drop_first(), t);
    }
}

proof fn lemma_trim_start_all_whitespace(ws: Seq<char>)
    requires
        forall|i: int| 0 <= i < ws.len() ==> is_whitespace(#[trigger] ws[i]),
    ensures
        trim_start(ws).len() == 0,
{
    lemma_trim_start_skips_whitespace(ws, Seq::empty());
    assert(ws + Seq::<char>::empty() =~= ws);
}

/// Whitespace around a token does not change what it is compared as: the
/// token with any whitespace before and after it normalizes as the bare token.
pub proof fn law_selection_ignores_surrounding_whitespace(before: Seq<char>, token: Seq<char>, after: Seq<char>)
    requires
        forall|i: int| 0 <= i < before.len() ==> is_whitespace(#[trigger] before[i]),
        forall|i: int| 0 <= i < after.len() ==> is_whitespace(#[trigger] after[i]),
    ensures
        normalize(before + token + after) == normalize(token),
{
    lemma_trim_start_skips_whitespace(before, token + after);
    assert(before + token + after =~= before + (token + after));
    lemma_trim_start_of_concat(token, after);
    if trim_start(token).len() > 0 {
        lemma_trim_end_skips_whitespace(trim_start(token), after);
    } else {
        lemma_trim_start_all_whitespace(after);
        assert(trim_start(token) =~= trim_start(after));
    }
}

proof fn lemma_count_at_least_one(ts: Seq<GitignoreTemplate>, f: TemplateField, norm: Seq<char>, i: int)
    requires
        0 <= i < ts.len(),
        field_matches(ts[i], f, norm),
    ensures
        count_matches(ts, f, norm) >= 1,
    decreases ts.len(),
{
    if i < ts.len() - 1 {
        assert(ts.drop_last()[i] == ts[i]);
        lemma_count_at_least_one(ts.drop_last(), f, norm, i);
    }
}

proof fn lemma_count_at_least_two(ts: Seq<GitignoreTemplate>, f: TemplateField, norm: Seq<char>, i: int, j: int)
    requires
        0 <= i < j < ts.len(),
        field_matches(ts[i], f, norm),
        field_matches(ts[j], f, norm),
    ensures
        count_matches(ts, f, norm) >= 2,
    decreases ts.len(),
{
    let p = ts.drop_last();
    assert(p[i] == ts[i]);
    if j == ts.len() - 1 {
        lemma_count_at_least_one(p, f, norm, i);
    } else {
        assert(p[j] == ts[j]);
        lemma_count_at_least_two(p, f, norm, i, j);
    }
}

proof fn lemma_count_exactly_one(ts: Seq<GitignoreTemplate>, f: TemplateField, norm: Seq<char>, j: int)
    requires
        0 <= j < ts.len(),
        field_matches(ts[j], f, norm),
        forall|k: int| 0 <= k < ts.len() && k != j ==> !field_matches(#[trigger] ts[k], f, norm),
    ensures
        count_matches(ts, f, norm) == 1,
    decreases ts.len(),
{
    let p = ts.drop_last();
    if j == ts.len() - 1 {
        assert forall|k: int| 0 <= k < p.len() implies !field_matches(#[trigger] p[k], f, norm) by {
            assert(p[k] == ts[k]);
        }
        lemma_no_match_count_zero(p, f, norm);
    } else {
        assert(p[j] == ts[j]);
        assert forall|k: int| 0 <= k < p.len() && k != j implies !field_matches(#[trigger] p[k], f, norm) by {
            assert(p[k] == ts[k]);
        }
        lemma_count_exactly_one(p, f, norm, j);
        assert(!field_matches(ts[ts.len() - 1], f, norm));
    }
}

/// How a token picks a template. A number `n` picks the `n`-th template
/// (`0` picks the first) and is refused past the end. Any other token, compared
/// normalized: the first template whose id matches wins; failing that the first
/// whose full label matches; failing that the first whose source path matches;
/// failing all three, the label decides, and only if exactly one template has
/// it: none gives no match, two or more are ambiguous.
pub proof fn law_token_resolution_order(ts: Seq<GitignoreTemplate>, token: Seq<char>, i: int, j: int)
    ensures
        parse_usize(token) matches Some(n) ==> resolve_token(ts, token) == (if (if n == 0 {
            0
        } else {
            n - 1
        }) < ts.len() {
            Ok::<int, SelectionFailure>(if n == 0 {
                0
            } else {
                n - 1
            })
        } else {
            Err(SelectionFailure::InvalidIndex(token))
        }),
        parse_usize(token) is None && is_first_match(ts, TemplateField::Id, normalize(token), j) ==> resolve_token(
            ts,
            token,
        ) == Ok::<int, SelectionFailure>(j),
        parse_usize(token) is None && (forall|k: int| 0 <= k < ts.len() ==> normalize((#[trigger] ts[k]).id@) != normalize(token))
            && is_first_match(ts, TemplateField::Display, normalize(token), j) ==> resolve_token(ts, token) == Ok::<
            int,
            SelectionFailure,
        >(j),
        parse_usize(token) is None && (forall|k: int| 0 <= k < ts.len() ==> normalize((#[trigger] ts[k]).id@) != normalize(token)
            && normalize(ts[k].display@) != normalize(token)) && is_first_match(ts, TemplateField::SourcePath, normalize(token), j)
            ==> resolve_token(ts, token) == Ok::<int, SelectionFailure>(j),
        ({
            let n = normalize(token);
            &&& parse_usize(token) is None
            &&& forall|k: int| 0 <= k < ts.len() ==> normalize((#[trigger] ts[k]).id@) != n && normalize(ts[k].display@) != n
                && normalize(ts[k].source_path@) != n
        }) ==> {
            let n = normalize(token);
            &&& (0 <= j < ts.len() && normalize(ts[j].label@) == n && (forall|k: int| 0 <= k < ts.len() && k != j ==> normalize(
                (#[trigger] ts[k]).label@) != n)) ==> resolve_token(ts, token) == Ok::<int, SelectionFailure>(j)
            &&& (forall|k: int| 0 <= k < ts.len() ==> normalize((#[trigger] ts[k]).label@) != n) ==> resolve_token(ts, token)
                == Err::<int, SelectionFailure>(SelectionFailure::NoMatch(token))
            &&& (0 <= i < j < ts.len() && normalize(ts[i].label@) == n && normalize(ts[j].label@) == n) ==> resolve_token(
                ts,
                token,
            ) == Err::<int, SelectionFailure>(SelectionFailure::Ambiguous(token))
        },
{
    let n = normalize(token);
    if parse_usize(token) is None {
        if is_first_match(ts, TemplateField::Id, n, j) {
            lemma_first_match_unique(ts, TemplateField::Id, n, j);
        }
        if forall|k: int| 0 <= k < ts.len() ==> normalize((#[trigger] ts[k]).id@) != n {
            assert(first_match(ts, TemplateField::Id, n) is None) by {
                if exists|x: int| is_first_match(ts, TemplateField::Id, n, x) {
                    let x = choose|x: int| is_first_match(ts, TemplateField::Id, n, x);
                    assert(normalize(ts[x].id@) == n);
                }
            }
            if is_first_match(ts, TemplateField::Display, n, j) {
                lemma_first_match_unique(ts, TemplateField::Display, n, j);
            }
            if forall|k: int| 0 <= k < ts.len() ==> normalize((#[trigger] ts[k]).display@) != n {
                assert(first_match(ts, TemplateField::Display, n) is None) by {
                    if exists|x: int| is_first_match(ts, TemplateField::Display, n, x) {
                        let x = choose|x: int| is_first_match(ts, TemplateField::Display, n, x);
                        assert(normalize(ts[x].display@) == n);
                    }
                }
                if is_first_match(ts, TemplateField::SourcePath, n, j) {
                    lemma_first_match_unique(ts, TemplateField::SourcePath, n, j);
                }
                if forall|k: int| 0 <= k < ts.len() ==> normalize((#[trigger] ts[k]).source_path@) != n {
                    assert(first_match(ts, TemplateField::SourcePath, n) is None) by {
                        if exists|x: int| is_first_match(ts, TemplateField::SourcePath, n, x) {
                            let x = choose|x: int| is_first_match(ts, TemplateField::SourcePath, n, x);
                            assert(normalize(ts[x].source_path@) == n);
                        }
                    }
                    if 0 <= j < ts.len() && normalize(ts[j].label@) == n && (forall|k: int| 0 <= k < ts.len() && k != j ==> normalize(
                        (#[trigger] ts[k]).label@) != n) {
                        assert forall|k: int| 0 <= k < ts.len() && k != j implies !field_matches(
                            #[trigger] ts[k],
                            TemplateField::Label,
                            n,
                        ) by {
                            assert(normalize(ts[k].label@) != n);
                        }
                        lemma_count_exactly_one(ts, TemplateField::Label, n, j);
                        assert(is_first_match(ts, TemplateField::Label, n, j)) by {
                            assert forall|k: int| 0 <= k < j implies !field_matches(#[trigger] ts[k], TemplateField::Label, n) by {
                                assert(normalize(ts[k].label@) != n);
                            }
                        }
                        lemma_first_match_unique(ts, TemplateField::Label, n, j);
                    }
                    if forall|k: int| 0 <= k < ts.len() ==> normalize((#[trigger] ts[k]).label@) != n {
                        assert forall|k: int| 0 <= k < ts.len() implies !field_matches(#[trigger] ts[k], TemplateField::Label, n) by {
                            assert(normalize(ts[k].label@) != n);
                        }
                        lemma_no_match_count_zero(ts, TemplateField::Label, n);
                    }
                    if 0 <= i < j < ts.len() && normalize(ts[i].label@) == n && normalize(ts[j].label@) == n {
                        lemma_count_at_least_two(ts, TemplateField::Label, n, i, j);
                    }
                }
            }
        }
    }
}

/// Normalizing changes nothing but the case of ASCII capitals: the normalized
/// token is the trimmed token, character for character, with each of `A`..=`Z`
/// replaced by its lowercase letter (32 code points on) and every other
/// character, non-ASCII letters included, kept.
pub proof fn law_normalize_lowers_only_ascii_capitals(token: Seq<char>)
    ensures
        normalize(token).len() == trim(token).len(),
        forall|i: int|
            0 <= i < trim(token).len() ==> if 'A' <= #[trigger] trim(token)[i] <= 'Z' {
                normalize(token)[i] as u32 == trim(token)[i] as u32 + 32
            } else {
                normalize(token)[i] == trim(token)[i]
            },
{
    let t = trim(token);
    assert forall|i: int| 0 <= i < t.len() implies if 'A' <= #[trigger] t[i] <= 'Z' {
        normalize(token)[i] as u32 == t[i] as u32 + 32
    } else {
        normalize(token)[i] == t[i]
    } by {
        assert(normalize(token)[i] == ascii_lower(t[i]));
    }
}

/// Resolves one selection token to a template (see [`resolve_token`]).
pub fn resolve_selection_token<'a>(templates: &'a [GitignoreTemplate], token: &str) -> (r: Result<
    &'a GitignoreTemplate,
    SelectionError,
>)
    ensures
        match (r, resolve_token(templates@, token@)) {
            (Ok(t), Ok(i)) => 0 <= i < templates@.len() && *t == templates@[i],
            (Err(e), Err(f)) => e.failure() == f,
            _ => false,
        },
{
    if let Some(index) = parse_usize_str(token) {
        let idx = if index == 0 {
            0
        } else {
            index - 1
        };
        if idx < templates.len() {
            return Ok(&templates[idx]);
        }
        return Err(SelectionError::InvalidIndex(token.to_owned()));
    }
    let normalized = normalize_token(token);
    let norm = normalized.as_str();
    if let Some(i) = find_first_field(templates, TemplateField::Id, norm) {
        return Ok(&templates[i]);
    }
    if let Some(i) = find_first_field(templates, TemplateField::Display, norm) {
        return Ok(&templates[i]);
    }
    if let Some(i) = find_first_field(templates, TemplateField::SourcePath, norm) {
        return Ok(&templates[i]);
    }
    let count = count_field(templates, TemplateField::Label, norm);
    if count == 1 {
        match find_first_field(templates, TemplateField::Label, norm) {
            Some(i) => Ok(&templates[i]),
            None => {
                proof {
                    lemma_no_match_count_zero(templates@, TemplateField::Label, norm@);
                }
                Err(SelectionError::NoMatch(token.to_owned()))
            },
        }
    } else if count == 0 {
        Err(SelectionError::NoMatch(token.to_owned()))
    } else {
        Err(SelectionError::Ambiguous(token.to_owned()))
    }
}

/// Whether a template equal to `ts[i]` was already chosen.
pub open spec fn already_chosen(ts: Seq<GitignoreTemplate>, chosen: Seq<int>, i: int) -> bool {
    exists|k: int| 0 <= k < chosen.len() && same_template(ts[#[trigger] chosen[k]], ts[i])
}

/// The templates named by the comma-separated fields so far, in order, each at most once.
pub open spec fn select_fold(ts: Seq<GitignoreTemplate>, parts: Seq<Seq<char>>) -> Result<
    Seq<int>,
    SelectionFailure,
>
    decreases parts.len(),
{
    if parts.len() == 0 {
        Ok(Seq::empty())
    } else {
        match select_fold(ts, parts.drop_last()) {
            Err(e) => Err(e),
            Ok(chosen) => {
                let token = trim(parts.last());
                if token.len() == 0 {
                    Ok(chosen)
                } else {
                    match resolve_token(ts, token) {
                        Err(e) => Err(e),
                        Ok(i) => Ok(
                            if already_chosen(ts, chosen, i) {
                                chosen
                            } else {
                                chosen.push(i)
                            },
                        ),
                    }
                }
            },
        }
    }
}

/// The selection a typed response makes: comma-separated tokens, blank ones
/// skipped, the first refused token refusing the whole response, and at least one template.
pub open spec fn selection(ts: Seq<GitignoreTemplate>, response: Seq<char>) -> Result<
    Seq<int>,
    SelectionFailure,
> {
    match select_fold(ts, split_on(response, ',')) {
        Err(e) => Err(e),
        Ok(chosen) => if chosen.len() == 0 {
            Err(SelectionFailure::NothingSelected)
        } else {
            Ok(chosen)
        },
    }
}

/// `chosen` lists templates `ts[idx[k]]`.
pub open spec fn lists(chosen: Seq<&GitignoreTemplate>, ts: Seq<GitignoreTemplate>, idx: Seq<int>) -> bool {
    &&& chosen.len() == idx.len()
    &&& forall|k: int|
        0 <= k < idx.len() ==> 0 <= #[trigger] idx[k] < ts.len() && *chosen[k] == ts[idx[k]]
}

/// Parses a typed selection (see [`selection`]).
pub fn parse_non_tty_selection<'a>(templates: &'a [GitignoreTemplate], response: &str) -> (r: Result<
    Vec<&'a GitignoreTemplate>,
    SelectionError,
>)
    ensures
        match (r, selection(templates@, response@)) {
            (Ok(v), Ok(idx)) => lists(v@, templates@, idx),
            (Err(e), Err(f)) => e.failure() == f,
            _ => false,
        },
{
    let parts = split_char(response, ',');
    let ghost all = split_on(response@, ',');
    let mut selected: Vec<&'a GitignoreTemplate> = Vec::new();
    let ghost mut idx: Seq<int> = Seq::empty();
    let mut k: usize = 0;
    while k < parts.len()
        invariant
            k <= parts.len(),
            strs_view(parts@) == all,
            all == split_on(response@, ','),
            select_fold(templates@, all.take(k as int)) == Ok::<Seq<int>, SelectionFailure>(idx),
            lists(selected@, templates@, idx),
        decreases parts.len() - k,
    {
        assert(all.take(k + 1).drop_last() =~= all.take(k as int));
        assert(all.take(k + 1).last() == parts@[k as int]@);
        let token = trim_string(parts[k].as_str());
        if !token.as_str().is_empty() {
            match resolve_selection_token(templates, token.as_str()) {
                Err(e) => {
                    proof {
                        lemma_fold_error_sticks(templates@, all, k as int + 1);
                    }
                    return Err(e);
                },
                Ok(t) => {
                    let ghost i = resolve_token(templates@, token@)->Ok_0;
                    let mut found = false;
                    let mut j: usize = 0;
                    while j < selected.len()
                        invariant
                            j <= selected.len(),
                            lists(selected@, templates@, idx),
                            0 <= i < templates@.len(),
                            *t == templates@[i],
                            found == exists|m: int|
                                0 <= m < j && same_template(templates@[#[trigger] idx[m]], templates@[i]),
                        decreases selected.len() - j,
                    {
                        assert(*selected@[j as int] == templates@[idx[j as int]]);
                        if templates_equal(selected[j], t) {
                            found = true;
                        }
                        j += 1;
                        assert(found == exists|m: int|
                            0 <= m < j && same_template(templates@[#[trigger] idx[m]], templates@[i])) by {
                            if same_template(templates@[idx[j - 1]], templates@[i]) {
                                assert(0 <= j - 1 < j);
                            }
                        }
                    }
                    if !found {
                        selected.push(t);
                        proof {
                            idx = idx.push(i);
                        }
                    }
                },
            }
        }
        k += 1;
    }
    assert(all.take(parts.len() as int) =~= all);
    if selected.len() == 0 {
        return Err(SelectionError::NothingSelected);
    }
    Ok(selected)
}

proof fn lemma_fold_error_sticks(ts: Seq<GitignoreTemplate>, all: Seq<Seq<char>>, k: int)
    requires
        0 < k <= all.len(),
        select_fold(ts, all.take(k)) is Err,
    ensures
        select_fold(ts, all) == select_fold(ts, all.take(k)),
    decreases all.len() - k,
{
    if k < all.len() {
        assert(all.take(k + 1).drop_last() =~= all.take(k));
        lemma_fold_error_sticks(ts, all, k + 1);
    } else {
        assert(all.take(k) =~= all);
    }
}

/// The templates behind a list of references.
pub open spec fn deref_all(ts: Seq<&GitignoreTemplate>) -> Seq<GitignoreTemplate> {
    ts.map_values(|t: &GitignoreTemplate| *t)
}

/// How many templates carry `label`.
pub open spec fn label_count(ts: Seq<GitignoreTemplate>, label: Seq<char>) -> nat
    decreases ts.len(),
{
    if ts.len() == 0 {
        0
    } else {
        label_count(ts.drop_last(), label) + if ts.last().label@ == label {
            1nat
        } else {
            0nat
        }
    }
}

/// The heading of `t` inside a rendered file of `ts`: none for a single template,
/// the full display name when its label is shared, else the label.
pub open spec fn separator_for(ts: Seq<GitignoreTemplate>, t: GitignoreTemplate) -> Option<
    Seq<char>,
> {
    if ts.len() == 1 {
        None
    } else if label_count(ts, t.label@) > 1 {
        Some(t.display@)
    } else {
        Some(t.label@)
    }
}

/// One section of the rendered file.
pub open spec fn section(ts: Seq<GitignoreTemplate>, i: int) -> Seq<char> {
    let body = trim_end_char(ts[i].body@, '\n');
    match separator_for(ts, ts[i]) {
        Some(sep) => "# --- "@ + sep + " ---\n"@ + body,
        None => body,
    }
}

/// The rendered `.gitignore`: sections separated by a blank line, ending in one newline.
pub open spec fn render_spec(ts: Seq<GitignoreTemplate>) -> Seq<char> {
    join(Seq::new(ts.len(), |i: int| section(ts, i)), "\n\n"@) + seq!['\n']
}

/// The heading used for `template` among `templates` (see [`separator_for`]).
pub fn separator_label<'a>(template: &'a GitignoreTemplate, templates: &[&GitignoreTemplate]) -> (r:
    Option<&'a str>)
    ensures
        match (r, separator_for(deref_all(templates@), *template)) {
            (Some(s), Some(t)) => s@ == t,
            (None, None) => true,
            _ => false,
        },
{
    if templates.len() == 1 {
        return None;
    }
    let ghost ts = deref_all(templates@);
    let mut count: usize = 0;
    let mut i: usize = 0;
    while i < templates.len()
        invariant
            i <= templates.len(),
            ts == deref_all(templates@),
            count == label_count(ts.take(i as int), template.label@),
            count <= i,
        decreases templates.len() - i,
    {
        assert(ts.take(i + 1).drop_last() =~= ts.take(i as int));
        if str_eq(templates[i].label, template.label) {
            count += 1;
        }
        i += 1;
    }
    assert(ts.take(templates.len() as int) =~= ts);
    if count > 1 {
        Some(template.display)
    } else {
        Some(template.label)
    }
}

/// `s` without trailing newlines.
fn trim_trailing_newlines(s: &str) -> (out: String)
    ensures
        out@ == trim_end_char(s@, '\n'),
{
    let v = to_chars(s);
    let mut hi = v.len();
    assert(v@.subrange(0, v.len() as int) =~= v@);
    while hi > 0 && v[hi - 1] == '\n'
        invariant
            hi <= v.len(),
            v@ == s@,
            trim_end_char(s@, '\n') == trim_end_char(v@.subrange(0, hi as int), '\n'),
        decreases hi,
    {
        assert(v@.subrange(0, hi as int).drop_last() =~= v@.subrange(0, hi - 1));
        hi -= 1;
    }
    string_from_range(&v, 0, hi)
}

/// Renders the selected templates into one `.gitignore` (see [`render_spec`]).
pub fn render_gitignore(templates: &[&GitignoreTemplate]) -> (rendered: String)
    ensures
        rendered@ == render_spec(deref_all(templates@)),
{
    let ghost ts = deref_all(templates@);
    let ghost sections = Seq::new(ts.len(), |i: int| section(ts, i));
    let mut out = String::new();
    let mut i: usize = 0;
    while i < templates.len()
        invariant
            i <= templates.len(),
            ts == deref_all(templates@),
            sections == Seq::new(ts.len(), |i: int| section(ts, i)),
            out@ == join(sections.take(i as int), "\n\n"@),
        decreases templates.len() - i,
    {
        let template = templates[i];
        let body = trim_trailing_newlines(template.body);
        if i > 0 {
            push_str(&mut out, "\n\n");
        }
        match separator_label(template, templates) {
            Some(separator) => {
                push_str(&mut out, "# --- ");
                push_str(&mut out, separator);
                push_str(&mut out, " ---\n");
                push_str(&mut out, body.as_str());
            },
            None => {
                push_str(&mut out, body.as_str());
            },
        }
        assert(sections.take(i + 1).drop_last() =~= sections.take(i as int));
        assert(sections[i as int] == section(ts, i as int));
        proof {
            if i == 0 {
                assert(sections.take(1) =~= seq![sections[0]]);
            }
        }
        i += 1;
    }
    assert(sections.take(templates.len() as int) =~= sections);
    push_str(&mut out, "\n");
    proof {
        reveal_strlit("\n");
    }
    out
}

/// Whether `cat[j]` is the first catalog entry equal to `t`.
pub open spec fn is_first_same(cat: Seq<GitignoreTemplate>, t: GitignoreTemplate, j: int) -> bool {
    &&& 0 <= j < cat.len()
    &&& same_template(cat[j], t)
    &&& forall|k: int| 0 <= k < j ==> !same_template(#[trigger] cat[k], t)
}

/// Where `t` stands in the catalog (its first equal entry).
pub open spec fn catalog_position(cat: Seq<GitignoreTemplate>, t: GitignoreTemplate) -> Option<int> {
    if exists|j: int| is_first_same(cat, t, j) {
        Some(choose|j: int| is_first_same(cat, t, j))
    } else {
        None
    }
}

/// Finds where `t` stands in the catalog.
fn position_in(cat: &[GitignoreTemplate], t: &GitignoreTemplate) -> (r: Option<usize>)
    ensures
        match r {
            Some(j) => catalog_position(cat@, *t) == Some(j as int) && j < cat@.len(),
            None => catalog_position(cat@, *t) is None,
        },
{
    let mut j: usize = 0;
    while j < cat.len()
        invariant
            j <= cat@.len(),
            forall|k: int| 0 <= k < j ==> !same_template(#[trigger] cat@[k], *t),
        decreases cat.len() - j,
    {
        if templates_equal(&cat[j], t) {
            proof {
                assert(is_first_same(cat@, *t, j as int));
                let k = choose|k: int| is_first_same(cat@, *t, k);
                if k < j {
                    assert(!same_template(cat@[k], *t));
                } else if j < k {
                    assert(!same_template(cat@[j as int], *t));
                }
            }
            return Some(j);
        }
        j += 1;
    }
    None
}

/// Every item has a place in the catalog.
pub open spec fn all_positioned(cat: Seq<GitignoreTemplate>, items: Seq<GitignoreTemplate>) -> bool {
    forall|k: int| 0 <= k < items.len() ==> (#[trigger] catalog_position(cat, items[k])) is Some
}

/// The catalog position of every item.
pub open spec fn position_keys(cat: Seq<GitignoreTemplate>, items: Seq<GitignoreTemplate>) -> Seq<int> {
    Seq::new(items.len(), |k: int| catalog_position(cat, items[k])->0)
}

/// The items among the first `n` whose key is `key`, in order.
pub open spec fn pick(items: Seq<GitignoreTemplate>, keys: Seq<int>, key: int, n: int) -> Seq<
    GitignoreTemplate,
>
    decreases n,
{
    if n <= 0 {
        Seq::empty()
    } else {
        pick(items, keys, key, n - 1) + if keys[n - 1] == key {
            seq![items[n - 1]]
        } else {
            Seq::empty()
        }
    }
}

/// The items ordered by key `0, 1, .., m - 1`, items with equal keys keeping their order.
pub open spec fn gather(items: Seq<GitignoreTemplate>, keys: Seq<int>, m: int) -> Seq<GitignoreTemplate>
    decreases m,
{
    if m <= 0 {
        Seq::empty()
    } else {
        gather(items, keys, m - 1) + pick(items, keys, m - 1, items.len() as int)
    }
}

/// The first item with no place in the catalog.
pub open spec fn first_unpositioned(cat: Seq<GitignoreTemplate>, items: Seq<GitignoreTemplate>) -> int {
    choose|k: int|
        0 <= k < items.len() && catalog_position(cat, items[k]) is None && forall|m: int|
            0 <= m < k ==> (#[trigger] catalog_position(cat, items[m])) is Some
}

/// Orders the selected templates as the catalog orders them (a stable sort by
/// catalog position); refuses, leaving them as they were, when one is not in the catalog.
pub fn sort_templates_by_catalog_order(
    catalog: &[GitignoreTemplate],
    templates: &mut Vec<&GitignoreTemplate>,
) -> (r: Result<(), SelectionError>)
    ensures
        match r {
            Ok(()) => {
                &&& all_positioned(catalog@, deref_all(old(templates)@))
                &&& deref_all(final(templates)@) == gather(
                    deref_all(old(templates)@),
                    position_keys(catalog@, deref_all(old(templates)@)),
                    catalog@.len() as int,
                )
            },
            Err(e) => {
                &&& !all_positioned(catalog@, deref_all(old(templates)@))
                &&& final(templates)@ == old(templates)@
                &&& e.failure() == SelectionFailure::NotInCatalog(
                    deref_all(old(templates)@)[first_unpositioned(
                        catalog@,
                        deref_all(old(templates)@),
                    )].id@,
                )
            },
        },
{
    let ghost items = deref_all(templates@);
    let n = templates.len();
    let mut keys: Vec<usize> = Vec::new();
    let mut k: usize = 0;
    while k < n
        invariant
            k <= n == templates.len(),
            items == deref_all(templates@),
            keys.len() == k,
            forall|m: int| 0 <= m < k ==> (#[trigger] catalog_position(catalog@, items[m])) == Some(
                keys@[m] as int,
            ),
            forall|m: int| 0 <= m < k ==> #[trigger] keys@[m] < catalog@.len(),
        decreases n - k,
    {
        match position_in(catalog, templates[k]) {
            Some(j) => {
                keys.push(j);
            },
            None => {
                proof {
                    assert(catalog_position(catalog@, items[k as int]) is None);
                    let w = first_unpositioned(catalog@, items);
                    assert(0 <= k < items.len() && catalog_position(catalog@, items[k as int]) is None
                        && forall|m: int|
                        0 <= m < k ==> (#[trigger] catalog_position(catalog@, items[m])) is Some);
                    if w < k {
                        assert(catalog_position(catalog@, items[w]) is Some);
                    } else if k < w {
                        assert(catalog_position(catalog@, items[k as int]) is Some);
                    }
                }
                return Err(SelectionError::NotInCatalog(templates[k].id.to_owned()));
            },
        }
        k += 1;
    }
    let ghost key_seq = position_keys(catalog@, items);
    assert(forall|m: int| 0 <= m < n ==> #[trigger] key_seq[m] == keys@[m] as int);
    let mut ordered: Vec<&GitignoreTemplate> = Vec::new();
    let mut key: usize = 0;
    while key < catalog.len()
        invariant
            key <= catalog@.len(),
            n == templates.len() == keys.len(),
            items == deref_all(templates@),
            key_seq.len() == n,
            forall|m: int| 0 <= m < n ==> #[trigger] key_seq[m] == keys@[m] as int,
            deref_all(ordered@) == gather(items, key_seq, key as int),
        decreases catalog.len() - key,
    {
        let mut j: usize = 0;
        while j < n
            invariant
                j <= n == templates.len() == keys.len(),
                key < catalog@.len(),
                items == deref_all(templates@),
                key_seq.len() == n,
                forall|m: int| 0 <= m < n ==> #[trigger] key_seq[m] == keys@[m] as int,
                deref_all(ordered@) == gather(items, key_seq, key as int) + pick(
                    items,
                    key_seq,
                    key as int,
                    j as int,
                ),
            decreases n - j,
        {
            let ghost before = ordered@;
            if keys[j] == key {
                ordered.push(templates[j]);
                assert(deref_all(ordered@) =~= deref_all(before).push(items[j as int]));
            }
            assert(key_seq[j as int] == keys@[j as int] as int);
            assert(pick(items, key_seq, key as int, j + 1) == pick(items, key_seq, key as int, j as int)
                + if key_seq[j as int] == key as int {
                seq![items[j as int]]
            } else {
                Seq::<GitignoreTemplate>::empty()
            });
            assert(deref_all(ordered@) =~= gather(items, key_seq, key as int) + pick(
                items,
                key_seq,
                key as int,
                j + 1,
            ));
            j += 1;
        }
        assert(items.len() == n);
        key += 1;
    }
    proof {
        assert forall|m: int| 0 <= m < items.len() implies (#[trigger] catalog_position(
            catalog@,
            items[m],
        )) is Some by {
            assert(key_seq[m] == keys@[m] as int);
        }
    }
    *templates = ordered;
    Ok(())
}

/// The first `max_lines` lines of `body`, then `...` when there were more, or a
/// placeholder when there is nothing to show.
pub open spec fn preview_spec(body: Seq<char>, max_lines: nat) -> Seq<Seq<char>> {
    let all = lines(body);
    let shown = if all.len() > max_lines {
        all.take(max_lines as int).push("..."@)
    } else {
        all
    };
    if shown.len() == 0 {
        seq!["(empty template)"@]
    } else {
        shown
    }
}

/// A preview of a template body (see [`preview_spec`]).
pub fn preview_lines(body: &str, max_lines: usize) -> (out: Vec<String>)
    ensures
        strs_view(out@) == preview_spec(body@, max_lines as nat),
{
    let all = lines_of(body);
    let mut out: Vec<String> = Vec::new();
    let mut i: usize = 0;
    while i < all.len() && i < max_lines
        invariant
            i <= all.len(),
            i <= max_lines,
            strs_view(out@) == strs_view(all@).take(i as int),
        decreases all.len() - i,
    {
        let ghost before = out@;
        let line = all[i].clone();
        let ghost lv = line@;
        assert(lv == all@[i as int]@);
        out.push(line);
        assert(strs_view(out@) =~= strs_view(before).push(lv));
        assert(strs_view(out@) =~= strs_view(all@).take(i + 1));
        i += 1;
    }
    if all.len() > max_lines {
        let ghost before = out@;
        out.push("...".to_owned());
        assert(strs_view(out@) =~= strs_view(before).push("..."@));
    } else {
        assert(strs_view(all@).take(i as int) =~= strs_view(all@));
    }
    if out.len() == 0 {
        out.push("(empty template)".to_owned());
        assert(strs_view(out@) =~= seq!["(empty template)"@]);
    }
    out
}

/// The detail panel of a template: where it comes from, its id and group, and a preview.
pub open spec fn detail_spec(t: GitignoreTemplate) -> Seq<Seq<char>> {
    seq![
        "Bundled from "@ + GITIGNORE_UPSTREAM_REPO@,
        "Source path: "@ + t.source_path@,
        "ID: "@ + t.id@,
        "Group: "@ + t.group@,
        Seq::<char>::empty(),
        "Preview:"@,
    ] + preview_spec(t.body@, 10)
}

fn labelled(label: &str, value: &str) -> (out: String)
    ensures
        out@ == label@ + value@,
{
    let mut out = String::new();
    push_str(&mut out, label);
    push_str(&mut out, value);
    out
}

/// The detail lines of a template (see [`detail_spec`]).
pub fn gitignore_detail_lines(template: &GitignoreTemplate) -> (out: Vec<String>)
    ensures
        strs_view(out@) == detail_spec(*template),
{
    let mut out: Vec<String> = Vec::new();
    out.push(labelled("Bundled from ", GITIGNORE_UPSTREAM_REPO));
    out.push(labelled("Source path: ", template.source_path));
    out.push(labelled("ID: ", template.id));
    out.push(labelled("Group: ", template.group));
    out.push(String::new());
    out.push("Preview:".to_owned());
    let ghost head = out@;
    let preview = preview_lines(template.body, 10);
    let mut i: usize = 0;
    while i < preview.len()
        invariant
            i <= preview.len(),
            head.len() == 6,
            strs_view(head) == detail_spec(*template).take(6),
            strs_view(preview@) == preview_spec(template.body@, 10),
            strs_view(out@) == strs_view(head) + strs_view(preview@).take(i as int),
        decreases preview.len() - i,
    {
        let ghost before = out@;
        let line = preview[i].clone();
        let ghost lv = line@;
        assert(lv == preview@[i as int]@);
        out.push(line);
        assert(strs_view(out@) =~= strs_view(before).push(lv));
        assert(strs_view(out@) =~= strs_view(head) + strs_view(preview@).take(i + 1));
        i += 1;
    }
    assert(strs_view(preview@).take(preview.len() as int) =~= strs_view(preview@));
    assert(detail_spec(*template) =~= detail_spec(*template).take(6) + preview_spec(template.body@, 10));
    out
}

/// The non-empty pieces, in order.
pub open spec fn nonempty_parts(parts: Seq<Seq<char>>) -> Seq<Seq<char>>
    decreases parts.len(),
{
    if parts.len() == 0 {
        Seq::empty()
    } else {
        let r = nonempty_parts(parts.drop_last());
        if parts.last().len() > 0 {
            r.push(parts.last())
        } else {
            r
        }
    }
}

/// The components of a relative `/`-separated path.
pub open spec fn path_components(p: Seq<char>) -> Seq<Seq<char>> {
    nonempty_parts(split_on(p, '/'))
}

/// The position of the last `.` in `name`.
pub open spec fn last_dot(name: Seq<char>) -> Option<int>
    decreases name.len(),
{
    if name.len() == 0 {
        None
    } else if name.last() == '.' {
        Some(name.len() - 1)
    } else {
        last_dot(name.drop_last())
    }
}

/// `Path::file_stem` of a file name: the part before the last `.`, or the whole
/// name when it has no `.` except at its start; none for `..`.
pub open spec fn file_stem(name: Seq<char>) -> Option<Seq<char>> {
    if name == ".."@ {
        None
    } else {
        match last_dot(name) {
            Some(i) => if i == 0 {
                Some(name)
            } else {
                Some(name.take(i))
            },
            None => Some(name),
        }
    }
}

/// The group of a template from the directories above it: their slugs, blank ones
/// left out, joined by `/`; `root` when none is left.
pub open spec fn group_of(dirs: Seq<Seq<char>>) -> Seq<char> {
    let segments = nonempty_parts(dirs.map_values(|d: Seq<char>| slugify(d)));
    if segments.len() == 0 {
        "root"@
    } else {
        join(segments, "/"@)
    }
}

/// Metadata of a catalog entry, as text.
pub struct MetadataView {
    pub id: Seq<char>,
    pub label: Seq<char>,
    pub group: Seq<char>,
    pub display: Seq<char>,
    pub source_path: Seq<char>,
}

/// The metadata that a template file's relative path gives it.
pub open spec fn metadata_spec(p: Seq<char>) -> Result<MetadataView, Seq<char>> {
    let comps = path_components(p);
    if comps.len() == 0 || file_stem(comps.last()) is None {
        Err("invalid gitignore file name: "@ + p)
    } else {
        let stem = file_stem(comps.last())->0;
        let group = group_of(comps.drop_last());
        let label = humanize(stem);
        Ok(
            MetadataView {
                id: group + "/"@ + slugify(stem),
                label,
                group,
                display: label + " ["@ + group + "]"@,
                source_path: join(comps, "/"@),
            },
        )
    }
}

/// Metadata of a catalog entry.
#[derive(Debug, Clone, PartialEq, Eq)]
pub struct GitignoreMetadata {
    pub id: String,
    pub label: String,
    pub group: String,
    pub display: String,
    pub source_path: String,
}

impl GitignoreMetadata {
    pub open spec fn view(&self) -> MetadataView {
        MetadataView {
            id: self.id@,
            label: self.label@,
            group: self.group@,
            display: self.display@,
            source_path: self.source_path@,
        }
    }
}

/// The non-empty strings of `parts`.
fn keep_nonempty(parts: Vec<String>) -> (out: Vec<String>)
    ensures
        strs_view(out@) == nonempty_parts(strs_view(parts@)),
{
    let mut out: Vec<String> = Vec::new();
    let mut i: usize = 0;
    while i < parts.len()
        invariant
            i <= parts.len(),
            strs_view(out@) == nonempty_parts(strs_view(parts@).take(i as int)),
        decreases parts.len() - i,
    {
        assert(strs_view(parts@).take(i + 1).drop_last() =~= strs_view(parts@).take(i as int));
        let piece = parts[i].clone();
        let ghost pv = piece@;
        assert(pv == strs_view(parts@).take(i + 1).last());
        if !piece.as_str().is_empty() {
            let ghost before = out@;
            out.push(piece);
            assert(strs_view(out@) =~= strs_view(before).push(pv));
        }
        i += 1;
    }
    assert(strs_view(parts@).take(parts.len() as int) =~= strs_view(parts@));
    out
}

/// The group name for a template's directories (see [`group_of`]).
pub fn normalize_group(dirs: &Vec<String>) -> (out: String)
    ensures
        out@ == group_of(strs_view(dirs@)),
{
    let mut slugs: Vec<String> = Vec::new();
    let mut i: usize = 0;
    while i < dirs.len()
        invariant
            i <= dirs.len(),
            strs_view(slugs@) == strs_view(dirs@).take(i as int).map_values(
                |d: Seq<char>| slugify(d),
            ),
        decreases dirs.len() - i,
    {
        let slug = slugify_name(dirs[i].as_str());
        let ghost sv = slug@;
        let ghost before = slugs@;
        slugs.push(slug);
        assert(strs_view(slugs@) =~= strs_view(before).push(sv));
        assert(strs_view(dirs@).take(i + 1).map_values(|d: Seq<char>| slugify(d)) =~= strs_view(
            dirs@,
        ).take(i as int).map_values(|d: Seq<char>| slugify(d)).push(slugify(dirs@[i as int]@)));
        i += 1;
    }
    assert(strs_view(dirs@).take(dirs.len() as int) =~= strs_view(dirs@));
    let segments = keep_nonempty(slugs);
    if segments.len() == 0 {
        "root".to_owned()
    } else {
        join_strings(&segments, "/")
    }
}

/// Finds the last `.` in `v`.
fn find_last_dot(v: &Vec<char>) -> (r: Option<usize>)
    ensures
        match r {
            Some(i) => last_dot(v@) == Some(i as int) && i < v.len(),
            None => last_dot(v@) is None,
        },
{
    let mut hi = v.len();
    assert(v@.take(v.len() as int) =~= v@);
    while hi > 0
        invariant
            hi <= v.len(),
            last_dot(v@) == last_dot(v@.take(hi as int)),
        decreases hi,
    {
        if v[hi - 1] == '.' {
            return Some(hi - 1);
        }
        assert(v@.take(hi as int).drop_last() =~= v@.take(hi - 1));
        hi -= 1;
    }
    None
}

/// Derives a catalog entry's metadata from its relative path (see [`metadata_spec`]).
pub fn metadata_from_relative_path(relative: &str) -> (r: Result<GitignoreMetadata, String>)
    ensures
        match (r, metadata_spec(relative@)) {
            (Ok(m), Ok(v)) => m.view() == v,
            (Err(e), Err(f)) => e@ == f,
            _ => false,
        },
{
    let comps = keep_nonempty(split_char(relative, '/'));
    let n = comps.len();
    let mut err = String::new();
    push_str(&mut err, "invalid gitignore file name: ");
    push_str(&mut err, relative);
    if n == 0 {
        return Err(err);
    }
    let name = to_chars(comps[n - 1].as_str());
    assert(name@ == path_components(relative@).last());
    if name.len() == 2 && name[0] == '.' && name[1] == '.' {
        proof {
            reveal_strlit("..");
            assert(name@ =~= ".."@);
        }
        return Err(err);
    }
    proof {
        reveal_strlit("..");
        assert(name@ != ".."@) by {
            if name@ == ".."@ {
                assert(name@.len() == 2 && name@[0] == '.' && name@[1] == '.');
            }
        }
    }
    let stem = match find_last_dot(&name) {
        Some(i) => {
            if i == 0 {
                from_chars(&name)
            } else {
                let s = string_from_range(&name, 0, i);
                assert(name@.subrange(0, i as int) =~= name@.take(i as int));
                s
            }
        },
        None => from_chars(&name),
    };
    let mut dirs: Vec<String> = Vec::new();
    let mut i: usize = 0;
    while i + 1 < n
        invariant
            n == comps.len() >= 1,
            i <= n - 1,
            strs_view(dirs@) == strs_view(comps@).take(i as int),
        decreases n - i,
    {
        let d = comps[i].clone();
        let ghost dv = d@;
        assert(dv == comps@[i as int]@);
        let ghost before = dirs@;
        dirs.push(d);
        assert(strs_view(dirs@) =~= strs_view(before).push(dv));
        assert(strs_view(dirs@) =~= strs_view(comps@).take(i + 1));
        i += 1;
    }
    assert(strs_view(comps@).take((n - 1) as int) =~= strs_view(comps@).drop_last());
    let group = normalize_group(&dirs);
    let label = humanize_name(stem.as_str());
    let slug = slugify_name(stem.as_str());
    let mut id = group.clone();
    push_str(&mut id, "/");
    push_str(&mut id, slug.as_str());
    let mut display = label.clone();
    push_str(&mut display, " [");
    push_str(&mut display, group.as_str());
    push_str(&mut display, "]");
    let source_path = join_strings(&comps, "/");
    Ok(GitignoreMetadata { id, label, group, display, source_path })
}
} // verus!

//! What is known of the repository a template is rendered in: the facts the
//! README checks rely on, the summary an agent reads, and file snippets.
use crate::paths::{camino_file_name, path_file_name};
use crate::text::{
    has_prefix, join, join_strings, lines, lines_of, push_str, str_eq, str_starts_with, strs_view, trim,
    trim_end, trim_end_char, trim_start_char, trim_string,
};
use crate::value_map::ValueMap;
use vstd::prelude::*;

verus! {

/// A file of the repository shown to an agent.
pub struct ContextSnippet {
    pub path: String,
    pub content: String,
}

/// Facts found in the repository.
pub struct RepoContextFacts {
    pub repo_name: String,
    pub repo_shape: String,
    pub ci_workflows: Vec<String>,
    pub license_source: Option<String>,
    pub bootstrap_command: Option<String>,
    pub run_command: Option<String>,
    pub test_command: Option<String>,
    pub docs_present: Vec<String>,
    pub workspace_inventory: Vec<String>,
}

/// The facts, a summary of them, and file snippets.
pub struct ContextBundle {
    pub facts: RepoContextFacts,
    pub summary_lines: Vec<String>,
    pub snippets: Vec<ContextSnippet>,
}


/// The value named `name` when it is not blank.
pub open spec fn non_blank_value(values: Map<Seq<char>, Seq<char>>, name: Seq<char>) -> Option<Seq<char>> {
    if values.contains_key(name) && trim(values[name]).len() > 0 {
        Some(values[name])
    } else {
        None
    }
}

/// The repository name: `repo_name`, else `project_name`, else the directory's
/// file name, else `project`.
pub open spec fn repo_name_spec(values: Map<Seq<char>, Seq<char>>, cwd: Seq<char>) -> Seq<char> {
    match non_blank_value(values, "repo_name"@) {
        Some(v) => v,
        None => match non_blank_value(values, "project_name"@) {
            Some(v) => v,
            None => match camino_file_name(cwd) {
                Some(n) => n,
                None => "project"@,
            },
        },
    }
}

fn non_blank_get(values: &ValueMap, name: &str) -> (r: Option<String>)
    ensures
        match r {
            Some(v) => non_blank_value(values@, name@) == Some(v@),
            None => non_blank_value(values@, name@) is None,
        },
{
    match values.get(name) {
        Some(v) => {
            if trim_string(v.as_str()).as_str().is_empty() {
                None
            } else {
                Some(v.clone())
            }
        },
        None => None,
    }
}

/// The repository name (see [`repo_name_spec`]).
pub fn resolve_repo_name(values: &ValueMap, cwd: &str) -> (r: String)
    ensures
        r@ == repo_name_spec(values@, cwd@),
{
    match non_blank_get(values, "repo_name") {
        Some(v) => v,
        None => match non_blank_get(values, "project_name") {
            Some(v) => v,
            None => match path_file_name(cwd) {
                Some(n) => n,
                None => "project".to_owned(),
            },
        },
    }
}

/// An optional fact for the summary: its text, or `(none)`.
pub open spec fn optional_summary(v: Option<Seq<char>>) -> Seq<char> {
    match v {
        Some(s) => s,
        None => "(none)"@,
    }
}

/// A list for the summary: joined by `sep`, or `(none)` where empty.
pub open spec fn list_summary(vs: Seq<Seq<char>>, sep: Seq<char>) -> Seq<char> {
    if vs.len() == 0 {
        "(none)"@
    } else {
        join(vs, sep)
    }
}

/// A text value for the summary: trimmed, or `(blank)`.
pub open spec fn summary_value(v: Seq<char>) -> Seq<char> {
    if trim(v).len() == 0 {
        "(blank)"@
    } else {
        trim(v)
    }
}

pub open spec fn opt_view(o: Option<String>) -> Option<Seq<char>> {
    match o {
        Some(s) => Some(s@),
        None => None,
    }
}

/// An optional fact for the summary (see [`optional_summary`]).
pub fn render_optional_summary(value: &Option<String>) -> (r: String)
    ensures
        r@ == optional_summary(opt_view(*value)),
{
    match value {
        Some(s) => s.clone(),
        None => "(none)".to_owned(),
    }
}

/// A list for the summary (see [`list_summary`]).
pub fn render_list_summary(values: &Vec<String>, separator: &str) -> (r: String)
    ensures
        r@ == list_summary(strs_view(values@), separator@),
{
    if values.len() == 0 {
        "(none)".to_owned()
    } else {
        join_strings(values, separator)
    }
}

/// A text value for the summary (see [`summary_value`]).
pub fn render_summary_value(value: &str) -> (r: String)
    ensures
        r@ == summary_value(value@),
{
    let t = trim_string(value);
    if t.as_str().is_empty() {
        "(blank)".to_owned()
    } else {
        t
    }
}

/// The fixed lines of the context summary.
pub open spec fn fact_lines(cwd: Seq<char>, f: RepoContextFacts) -> Seq<Seq<char>> {
    seq![
        "- Repo name: "@ + f.repo_name@,
        "- Current directory: "@ + cwd,
        "- Repo shape: "@ + f.repo_shape@,
        "- Verified CI workflows: "@ + list_summary(strs_view(f.ci_workflows@), ", "@),
        "- Verified license source: "@ + optional_summary(opt_view(f.license_source)),
        "- Verified setup command: "@ + optional_summary(opt_view(f.bootstrap_command)),
        "- Verified run command: "@ + optional_summary(opt_view(f.run_command)),
        "- Verified test command: "@ + optional_summary(opt_view(f.test_command)),
        "- Docs present: "@ + list_summary(strs_view(f.docs_present@), ", "@),
        "- Workspace inventory: "@ + list_summary(strs_view(f.workspace_inventory@), "; "@),
    ]
}

fn prefixed(prefix: &str, rest: String) -> (r: String)
    ensures
        r@ == prefix@ + rest@,
{
    let mut r = prefix.to_owned();
    push_str(&mut r, rest.as_str());
    r
}

/// The context summary an agent reads: the facts, then one line per text value
/// in name order.
pub fn build_context_summary_lines(cwd: &str, facts: &RepoContextFacts, values: &ValueMap) -> (r: Vec<String>)
    ensures
        r@.len() == 10 + values.names().len(),
        forall|i: int| 0 <= i < 10 ==> (#[trigger] r@[i])@ == fact_lines(cwd@, *facts)[i],
        forall|i: int| 0 <= i < values.names().len() ==> (#[trigger] r@[10 + i])@ == "- "@ + values.names()[i] + ": "@
            + summary_value(values@[values.names()[i]]),
{
    let mut r: Vec<String> = Vec::new();
    r.push(prefixed("- Repo name: ", facts.repo_name.clone()));
    r.push(prefixed("- Current directory: ", cwd.to_owned()));
    r.push(prefixed("- Repo shape: ", facts.repo_shape.clone()));
    r.push(prefixed("- Verified CI workflows: ", render_list_summary(&facts.ci_workflows, ", ")));
    r.push(prefixed("- Verified license source: ", render_optional_summary(&facts.license_source)));
    r.push(prefixed("- Verified setup command: ", render_optional_summary(&facts.bootstrap_command)));
    r.push(prefixed("- Verified run command: ", render_optional_summary(&facts.run_command)));
    r.push(prefixed("- Verified test command: ", render_optional_summary(&facts.test_command)));
    r.push(prefixed("- Docs present: ", render_list_summary(&facts.docs_present, ", ")));
    r.push(prefixed("- Workspace inventory: ", render_list_summary(&facts.workspace_inventory, "; ")));
    let names = values.names_in_order();
    let mut i: usize = 0;
    while i < names.len()
        invariant
            i <= names@.len(),
            strs_view(names@) == values.names(),
            forall|k: Seq<char>| values@.contains_key(k) <==> strs_view(names@).contains(k),
            r@.len() == 10 + i,
            forall|j: int| 0 <= j < 10 ==> (#[trigger] r@[j])@ == fact_lines(cwd@, *facts)[j],
            forall|j: int| 0 <= j < i ==> (#[trigger] r@[10 + j])@ == "- "@ + values.names()[j] + ": "@
                + summary_value(values@[values.names()[j]]),
        decreases names.len() - i,
    {
        assert(strs_view(names@)[i as int] == names@[i as int]@);
        assert(strs_view(names@).contains(names@[i as int]@));
        let v = match values.get(names[i].as_str()) {
            Some(v) => render_summary_value(v.as_str()),
            None => String::new(),
        };
        let mut line = "- ".to_owned();
        push_str(&mut line, names[i].as_str());
        push_str(&mut line, ": ");
        push_str(&mut line, v.as_str());
        r.push(line);
        i += 1;
    }
    r
}

/// The command that runs a package script with a package manager (npm where
/// none is known).
pub open spec fn run_command_spec(pm: Option<Seq<char>>, script: Seq<char>) -> Seq<char> {
    let m = match pm {
        Some(m) => m,
        None => "npm"@,
    };
    if m == "pnpm"@ {
        "pnpm "@ + script
    } else if m == "yarn"@ {
        "yarn "@ + script
    } else if m == "bun"@ {
        "bun run "@ + script
    } else {
        "npm run "@ + script
    }
}

/// The command that runs a package script (see [`run_command_spec`]).
pub fn package_manager_run_command(package_manager: Option<&str>, script: &str) -> (r: String)
    ensures
        r@ == run_command_spec(
            match package_manager {
                Some(m) => Some(m@),
                None => None,
            },
            script@,
        ),
{
    let m = match package_manager {
        Some(m) => m,
        None => "npm",
    };
    let mut r = if str_eq(m, "pnpm") {
        "pnpm ".to_owned()
    } else if str_eq(m, "yarn") {
        "yarn ".to_owned()
    } else if str_eq(m, "bun") {
        "bun run ".to_owned()
    } else {
        "npm run ".to_owned()
    };
    push_str(&mut r, script);
    r
}

/// The text before the first `:` of a line, if it has one.
pub open spec fn before_colon(s: Seq<char>) -> Option<Seq<char>> {
    if exists|i: int| 0 <= i < s.len() && s[i] == ':' {
        let i = choose|i: int| 0 <= i < s.len() && s[i] == ':' && forall|j: int| 0 <= j < i ==> s[j] != ':';
        Some(s.take(i))
    } else {
        None
    }
}

/// The target a line of a justfile or Makefile names, if it is one of `names`:
/// comments and blank lines are skipped; the trimmed text before the first `:`
/// is the candidate.
pub open spec fn line_target(line: Seq<char>, names: Seq<Seq<char>>) -> Option<Seq<char>> {
    let t = trim(line);
    if t.len() == 0 || t[0] == '#' {
        None
    } else {
        match before_colon(t) {
            Some(n) => if names.contains(trim(n)) {
                Some(trim(n))
            } else {
                None
            },
            None => None,
        }
    }
}

/// The first line that names one of the targets.
pub open spec fn first_target(ls: Seq<Seq<char>>, names: Seq<Seq<char>>) -> Option<Seq<char>>
    decreases ls.len(),
{
    if ls.len() == 0 {
        None
    } else {
        match line_target(ls[0], names) {
            Some(t) => Some(t),
            None => first_target(ls.drop_first(), names),
        }
    }
}

fn line_target_of(line: &str, names: &Vec<&str>) -> (r: Option<String>)
    ensures
        match r {
            Some(t) => line_target(line@, names@.map_values(|n: &str| n@)) == Some(t@),
            None => line_target(line@, names@.map_values(|n: &str| n@)) is None,
        },
{
    let t = trim_string(line);
    let v = crate::text::to_chars(t.as_str());
    if v.len() == 0 || v[0] == '#' {
        return None;
    }
    let mut i: usize = 0;
    while i < v.len() && v[i] != ':'
        invariant
            i <= v@.len(),
            v@ == t@,
            forall|j: int| 0 <= j < i ==> v@[j] != ':',
        decreases v.len() - i,
    {
        i += 1;
    }
    if i == v.len() {
        return None;
    }
    let name = crate::text::string_from_range(&v, 0, i);
    assert(v@.subrange(0, i as int) =~= v@.take(i as int));
    let candidate = trim_string(name.as_str());
    let ghost nv = names@.map_values(|n: &str| n@);
    proof {
        let c = choose|c: int| 0 <= c < t@.len() && t@[c] == ':' && forall|j: int| 0 <= j < c ==> t@[j] != ':';
        assert(t@[i as int] == ':');
        if c < i {
            assert(v@[c] != ':');
        } else if c > i {
            assert(t@[i as int] != ':');
        }
        assert(before_colon(t@) == Some(t@.take(i as int)));
    }
    let ghost expected = if nv.contains(candidate@) { Some(candidate@) } else { None::<Seq<char>> };
    assert(line_target(line@, nv) == expected);
    let mut k: usize = 0;
    while k < names.len()
        invariant
            k <= names@.len(),
            nv == names@.map_values(|n: &str| n@),
            line_target(line@, nv) == (if nv.contains(candidate@) { Some(candidate@) } else { None::<Seq<char>> }),
            forall|j: int| 0 <= j < k ==> nv[j] != candidate@,
        decreases names.len() - k,
    {
        if str_eq(names[k], candidate.as_str()) {
            assert(nv[k as int] == candidate@);
            return Some(candidate);
        }
        k += 1;
    }
    None
}

/// The first target of `names` that a justfile or Makefile text defines (see
/// [`first_target`]).
pub fn detect_named_target(text: &str, names: &Vec<&str>) -> (r: Option<String>)
    ensures
        match r {
            Some(t) => first_target(lines(text@), names@.map_values(|n: &str| n@)) == Some(t@),
            None => first_target(lines(text@), names@.map_values(|n: &str| n@)) is None,
        },
{
    let ls = lines_of(text);
    let ghost lv = strs_view(ls@);
    let mut i: usize = 0;
    assert(lv.skip(0) =~= lv);
    while i < ls.len()
        invariant
            i <= ls@.len(),
            lv == strs_view(ls@),
            lv == lines(text@),
            first_target(lv, names@.map_values(|n: &str| n@)) == first_target(lv.skip(i as int), names@.map_values(|n: &str| n@)),
        decreases ls.len() - i,
    {
        assert(lv.skip(i as int)[0] == ls@[i as int]@);
        assert(lv.skip(i as int).drop_first() =~= lv.skip(i + 1));
        match line_target_of(ls[i].as_str(), names) {
            Some(t) => {
                return Some(t);
            },
            None => {},
        }
        i += 1;
    }
    assert(lv.skip(ls@.len() as int) =~= Seq::<Seq<char>>::empty());
    None
}

/// The string value of `key = "..."` in a TOML text: the first line that starts
/// with `key = ` after trimming gives the trimmed rest with quotes removed.
pub open spec fn toml_value_of(line: Seq<char>, key: Seq<char>) -> Option<Seq<char>> {
    let t = trim(line);
    let prefix = key + " = "@;
    if has_prefix(t, prefix) {
        Some(trim_end_char(trim_start_char(trim(t.skip(prefix.len() as int)), '"'), '"'))
    } else {
        None
    }
}

pub open spec fn first_toml_value(ls: Seq<Seq<char>>, key: Seq<char>) -> Option<Seq<char>>
    decreases ls.len(),
{
    if ls.len() == 0 {
        None
    } else {
        match toml_value_of(ls[0], key) {
            Some(v) => Some(v),
            None => first_toml_value(ls.drop_first(), key),
        }
    }
}

fn strip_quotes(s: &str) -> (r: String)
    ensures
        r@ == trim_end_char(trim_start_char(s@, '"'), '"'),
{
    let v = crate::text::to_chars(s);
    let mut lo: usize = 0;
    assert(v@.subrange(0, v@.len() as int) =~= v@);
    while lo < v.len() && v[lo] == '"'
        invariant
            lo <= v@.len(),
            v@ == s@,
            trim_start_char(s@, '"') == trim_start_char(v@.subrange(lo as int, v@.len() as int), '"'),
        decreases v.len() - lo,
    {
        assert(v@.subrange(lo as int, v@.len() as int).drop_first() =~= v@.subrange(lo + 1, v@.len() as int));
        lo += 1;
    }
    let mut hi: usize = v.len();
    while hi > lo && v[hi - 1] == '"'
        invariant
            lo <= hi <= v@.len(),
            v@ == s@,
            trim_end_char(trim_start_char(s@, '"'), '"') == trim_end_char(v@.subrange(lo as int, hi as int), '"'),
        decreases hi - lo,
    {
        assert(v@.subrange(lo as int, hi as int).drop_last() =~= v@.subrange(lo as int, hi - 1));
        hi -= 1;
    }
    crate::text::string_from_range(&v, lo, hi)
}

/// The string value of a TOML key (see [`first_toml_value`]).
pub fn find_toml_string_value(text: &str, key: &str) -> (r: Option<String>)
    ensures
        match r {
            Some(v) => first_toml_value(lines(text@), key@) == Some(v@),
            None => first_toml_value(lines(text@), key@) is None,
        },
{
    let ls = lines_of(text);
    let ghost lv = strs_view(ls@);
    let mut prefix = key.to_owned();
    push_str(&mut prefix, " = ");
    let mut i: usize = 0;
    assert(lv.skip(0) =~= lv);
    while i < ls.len()
        invariant
            i <= ls@.len(),
            lv == strs_view(ls@),
            lv == lines(text@),
            prefix@ == key@ + " = "@,
            first_toml_value(lv, key@) == first_toml_value(lv.skip(i as int), key@),
        decreases ls.len() - i,
    {
        assert(lv.skip(i as int)[0] == ls@[i as int]@);
        assert(lv.skip(i as int).drop_first() =~= lv.skip(i + 1));
        let t = trim_string(ls[i].as_str());
        if str_starts_with(t.as_str(), prefix.as_str()) {
            let tv = crate::text::to_chars(t.as_str());
            let plen = crate::text::to_chars(prefix.as_str()).len();
            let rest = crate::text::string_from_range(&tv, plen, tv.len());
            assert(tv@.subrange(plen as int, tv@.len() as int) =~= t@.skip(plen as int));
            let value = trim_string(rest.as_str());
            return Some(strip_quotes(value.as_str()));
        }
        i += 1;
    }
    assert(lv.skip(ls@.len() as int) =~= Seq::<Seq<char>>::empty());
    None
}


/// What `serde_json` reads from a `package.json` text: `None` where it does not
/// parse; else its `packageManager` and `license` strings and, where `scripts`
/// is an object, the script names.
pub uninterp spec fn package_json_parts(text: Seq<char>) -> Option<(Option<Seq<char>>, Option<Seq<char>>, Option<Seq<Seq<char>>>)>;

/// `serde_json::from_str` on a `package.json` text and the fields read from it
/// (see [`package_json_parts`]).
#[verifier::external_body]
fn read_package_json_parts(text: &str) -> (r: Option<(Option<String>, Option<String>, Option<Vec<String>>)>)
    ensures
        match r {
            None => package_json_parts(text@) is None,
            Some((m, l, s)) => package_json_parts(text@) == Some((opt_view(m), opt_view(l), match s {
                Some(v) => Some(strs_view(v@)),
                None => None::<Seq<Seq<char>>>,
            })),
        },
{
    let v: serde_json::Value = serde_json::from_str(text).ok()?;
    Some((
        v.get("packageManager").and_then(|x| x.as_str()).map(|x| x.to_owned()),
        v.get("license").and_then(|x| x.as_str()).map(|x| x.to_owned()),
        v.get("scripts").and_then(|x| x.as_object()).map(|o| o.keys().cloned().collect()),
    ))
}

/// The fields of a `package.json` that the detection reads.
pub struct PackageJson {
    pub package_manager: Option<String>,
    pub license: Option<String>,
    pub scripts: Option<Vec<String>>,
}

pub open spec fn package_view(p: PackageJson) -> (Option<Seq<char>>, Option<Seq<char>>, Option<Seq<Seq<char>>>) {
    (opt_view(p.package_manager), opt_view(p.license), match p.scripts {
        Some(v) => Some(strs_view(v@)),
        None => None,
    })
}

/// Reads a `package.json` text (see [`package_json_parts`]).
pub fn parse_package_json(text: &str) -> (r: Option<PackageJson>)
    ensures
        match r {
            None => package_json_parts(text@) is None,
            Some(p) => package_json_parts(text@) == Some(package_view(p)),
        },
{
    match read_package_json_parts(text) {
        None => None,
        Some((package_manager, license, scripts)) => Some(PackageJson { package_manager, license, scripts }),
    }
}

/// The package manager: from lock files, then from `packageManager`, then npm
/// where there is a `package.json`.
pub open spec fn package_manager_spec(
    pnpm_workspace: bool,
    pnpm_lock: bool,
    bun_lock: bool,
    bun_lockb: bool,
    yarn_lock: bool,
    pkg: Option<(Option<Seq<char>>, Option<Seq<char>>, Option<Seq<Seq<char>>>)>,
) -> Option<Seq<char>> {
    if pnpm_workspace || pnpm_lock {
        Some("pnpm"@)
    } else if bun_lock || bun_lockb {
        Some("bun"@)
    } else if yarn_lock {
        Some("yarn"@)
    } else {
        let declared = match pkg {
            Some((Some(m), _, _)) => if has_prefix(m, "pnpm@"@) {
                Some("pnpm"@)
            } else if has_prefix(m, "yarn@"@) {
                Some("yarn"@)
            } else if has_prefix(m, "bun@"@) {
                Some("bun"@)
            } else if has_prefix(m, "npm@"@) {
                Some("npm"@)
            } else {
                None
            },
            _ => None,
        };
        match declared {
            Some(d) => Some(d),
            None => if pkg is Some {
                Some("npm"@)
            } else {
                None
            },
        }
    }
}

pub open spec fn pkg_view(p: Option<PackageJson>) -> Option<(Option<Seq<char>>, Option<Seq<char>>, Option<Seq<Seq<char>>>)> {
    match p {
        Some(x) => Some(package_view(x)),
        None => None,
    }
}

pub open spec fn str_opt_view(o: Option<&str>) -> Option<Seq<char>> {
    match o {
        Some(s) => Some(s@),
        None => None,
    }
}

/// The package manager (see [`package_manager_spec`]).
pub fn detect_package_manager(
    pnpm_workspace: bool,
    pnpm_lock: bool,
    bun_lock: bool,
    bun_lockb: bool,
    yarn_lock: bool,
    package_json: &Option<PackageJson>,
) -> (r: Option<&'static str>)
    ensures
        str_opt_view(r) == package_manager_spec(pnpm_workspace, pnpm_lock, bun_lock, bun_lockb, yarn_lock, pkg_view(*package_json)),
{
    if pnpm_workspace || pnpm_lock {
        return Some("pnpm");
    }
    if bun_lock || bun_lockb {
        return Some("bun");
    }
    if yarn_lock {
        return Some("yarn");
    }
    match package_json {
        Some(p) => {
            match &p.package_manager {
                Some(m) => {
                    if str_starts_with(m.as_str(), "pnpm@") {
                        return Some("pnpm");
                    }
                    if str_starts_with(m.as_str(), "yarn@") {
                        return Some("yarn");
                    }
                    if str_starts_with(m.as_str(), "bun@") {
                        return Some("bun");
                    }
                    if str_starts_with(m.as_str(), "npm@") {
                        return Some("npm");
                    }
                },
                None => {},
            }
            Some("npm")
        },
        None => None,
    }
}

/// The install command: by package manager, else by project files.
pub open spec fn bootstrap_spec(pm: Option<Seq<char>>, cargo_toml: bool, pyproject: bool, go_module: bool, has_package_json: bool) -> Option<Seq<char>> {
    match pm {
        Some(m) => Some(if m == "pnpm"@ {
            "pnpm install"@
        } else if m == "bun"@ {
            "bun install"@
        } else if m == "yarn"@ {
            "yarn install"@
        } else {
            "npm install"@
        }),
        None => if cargo_toml {
            Some("cargo build"@)
        } else if pyproject {
            Some("python -m pip install -e ."@)
        } else if go_module {
            Some("go build ./..."@)
        } else if has_package_json {
            Some("npm install"@)
        } else {
            None
        },
    }
}

/// The install command (see [`bootstrap_spec`]).
pub fn detect_bootstrap_command(pm: Option<&str>, cargo_toml: bool, pyproject: bool, go_module: bool, has_package_json: bool) -> (r: Option<String>)
    ensures
        opt_view(r) == bootstrap_spec(str_opt_view(pm), cargo_toml, pyproject, go_module, has_package_json),
{
    match pm {
        Some(m) => Some(if str_eq(m, "pnpm") {
            "pnpm install".to_owned()
        } else if str_eq(m, "bun") {
            "bun install".to_owned()
        } else if str_eq(m, "yarn") {
            "yarn install".to_owned()
        } else {
            "npm install".to_owned()
        }),
        None => if cargo_toml {
            Some("cargo build".to_owned())
        } else if pyproject {
            Some("python -m pip install -e .".to_owned())
        } else if go_module {
            Some("go build ./...".to_owned())
        } else if has_package_json {
            Some("npm install".to_owned())
        } else {
            None
        },
    }
}

/// The target a file text names, if any (no file, no target).
pub open spec fn target_in(text: Option<Seq<char>>, names: Seq<Seq<char>>) -> Option<Seq<char>> {
    match text {
        Some(t) => first_target(lines(t), names),
        None => None,
    }
}

/// The script names of a `package.json`.
pub open spec fn scripts_of(pkg: Option<(Option<Seq<char>>, Option<Seq<char>>, Option<Seq<Seq<char>>>)>) -> Option<Seq<Seq<char>>> {
    match pkg {
        Some((_, _, s)) => s,
        None => None,
    }
}

/// The command that starts the project: a justfile target, a Makefile target,
/// a `dev` or `start` script, or `cargo run`.
pub open spec fn run_spec(
    justfile: Option<Seq<char>>,
    makefile: Option<Seq<char>>,
    pkg: Option<(Option<Seq<char>>, Option<Seq<char>>, Option<Seq<Seq<char>>>)>,
    pm: Option<Seq<char>>,
    cargo_toml: bool,
) -> Option<Seq<char>> {
    match target_in(justfile, seq!["dev"@, "run"@, "start"@]) {
        Some(t) => Some("just "@ + t),
        None => match target_in(makefile, seq!["dev"@, "run"@, "start"@, "serve"@]) {
            Some(t) => Some("make "@ + t),
            None => {
                let from_scripts = match scripts_of(pkg) {
                    Some(s) => if s.contains("dev"@) {
                        Some(run_command_spec(pm, "dev"@))
                    } else if s.contains("start"@) {
                        Some(run_command_spec(pm, "start"@))
                    } else {
                        None
                    },
                    None => None,
                };
                match from_scripts {
                    Some(c) => Some(c),
                    None => if cargo_toml {
                        Some("cargo run"@)
                    } else {
                        None
                    },
                }
            },
        },
    }
}

/// The command that tests the project: a justfile target, a Makefile target, a
/// `test` or `check` script, or the test command of the project's language.
pub open spec fn test_spec(
    justfile: Option<Seq<char>>,
    makefile: Option<Seq<char>>,
    pkg: Option<(Option<Seq<char>>, Option<Seq<char>>, Option<Seq<Seq<char>>>)>,
    pm: Option<Seq<char>>,
    cargo_toml: bool,
    pyproject: bool,
    go_module: bool,
) -> Option<Seq<char>> {
    match target_in(justfile, seq!["test"@, "check"@]) {
        Some(t) => Some("just "@ + t),
        None => match target_in(makefile, seq!["test"@, "check"@]) {
            Some(t) => Some("make "@ + t),
            None => {
                let from_scripts = match scripts_of(pkg) {
                    Some(s) => if s.contains("test"@) {
                        Some(run_command_spec(pm, "test"@))
                    } else if s.contains("check"@) {
                        Some(run_command_spec(pm, "check"@))
                    } else {
                        None
                    },
                    None => None,
                };
                match from_scripts {
                    Some(c) => Some(c),
                    None => if cargo_toml {
                        Some("cargo test -q"@)
                    } else if pyproject {
                        Some("pytest"@)
                    } else if go_module {
                        Some("go test ./..."@)
                    } else {
                        None
                    },
                }
            },
        },
    }
}

fn target_of(text: Option<&str>, names: &Vec<&str>) -> (r: Option<String>)
    ensures
        opt_view(r) == target_in(str_opt_view(text), names@.map_values(|n: &str| n@)),
{
    match text {
        Some(t) => detect_named_target(t, names),
        None => None,
    }
}

fn has_script(pkg: &Option<PackageJson>, name: &str) -> (r: bool)
    ensures
        r == (scripts_of(pkg_view(*pkg)) matches Some(s) && s.contains(name@)),
{
    match pkg {
        Some(p) => match &p.scripts {
            Some(v) => {
                let ghost sv = strs_view(v@);
                let mut i: usize = 0;
                while i < v.len()
                    invariant
                        i <= v@.len(),
                        sv == strs_view(v@),
                        scripts_of(pkg_view(*pkg)) == Some(sv),
                        forall|j: int| 0 <= j < i ==> sv[j] != name@,
                    decreases v.len() - i,
                {
                    if str_eq(v[i].as_str(), name) {
                        assert(sv[i as int] == name@);
                        return true;
                    }
                    i += 1;
                }
                false
            },
            None => false,
        },
        None => false,
    }
}

fn prefixed_opt(prefix: &str, t: Option<String>) -> (r: Option<String>)
    ensures
        opt_view(r) == match opt_view(t) {
            Some(x) => Some(prefix@ + x),
            None => None,
        },
{
    match t {
        Some(x) => Some(prefixed(prefix, x)),
        None => None,
    }
}

/// The command that starts the project (see [`run_spec`]).
pub fn detect_run_command(
    justfile: Option<&str>,
    makefile: Option<&str>,
    package_json: &Option<PackageJson>,
    pm: Option<&str>,
    cargo_toml: bool,
) -> (r: Option<String>)
    ensures
        opt_view(r) == run_spec(str_opt_view(justfile), str_opt_view(makefile), pkg_view(*package_json), str_opt_view(pm), cargo_toml),
{
    let just_names: Vec<&str> = vec!["dev", "run", "start"];
    assert(just_names@.map_values(|n: &str| n@) =~= seq!["dev"@, "run"@, "start"@]);
    if let Some(t) = target_of(justfile, &just_names) {
        return prefixed_opt("just ", Some(t));
    }
    let make_names: Vec<&str> = vec!["dev", "run", "start", "serve"];
    assert(make_names@.map_values(|n: &str| n@) =~= seq!["dev"@, "run"@, "start"@, "serve"@]);
    if let Some(t) = target_of(makefile, &make_names) {
        return prefixed_opt("make ", Some(t));
    }
    if has_script(package_json, "dev") {
        return Some(package_manager_run_command(pm, "dev"));
    }
    if has_script(package_json, "start") {
        return Some(package_manager_run_command(pm, "start"));
    }
    if cargo_toml {
        Some("cargo run".to_owned())
    } else {
        None
    }
}

/// The command that tests the project (see [`test_spec`]).
pub fn detect_test_command(
    justfile: Option<&str>,
    makefile: Option<&str>,
    package_json: &Option<PackageJson>,
    pm: Option<&str>,
    cargo_toml: bool,
    pyproject: bool,
    go_module: bool,
) -> (r: Option<String>)
    ensures
        opt_view(r) == test_spec(
            str_opt_view(justfile),
            str_opt_view(makefile),
            pkg_view(*package_json),
            str_opt_view(pm),
            cargo_toml,
            pyproject,
            go_module,
        ),
{
    let names: Vec<&str> = vec!["test", "check"];
    assert(names@.map_values(|n: &str| n@) =~= seq!["test"@, "check"@]);
    if let Some(t) = target_of(justfile, &names) {
        return prefixed_opt("just ", Some(t));
    }
    if let Some(t) = target_of(makefile, &names) {
        return prefixed_opt("make ", Some(t));
    }
    if has_script(package_json, "test") {
        return Some(package_manager_run_command(pm, "test"));
    }
    if has_script(package_json, "check") {
        return Some(package_manager_run_command(pm, "check"));
    }
    if cargo_toml {
        Some("cargo test -q".to_owned())
    } else if pyproject {
        Some("pytest".to_owned())
    } else if go_module {
        Some("go test ./...".to_owned())
    } else {
        None
    }
}

/// The repository's shape: a monorepo root where a workspace marker exists or
/// `Cargo.toml` or `package.json` declares workspaces.
pub open spec fn repo_shape_spec(marker: bool, cargo_text: Option<Seq<char>>, package_text: Option<Seq<char>>) -> Seq<char> {
    if marker || (cargo_text matches Some(c) && crate::text::contains_seq(c, "[workspace]"@)) || (package_text matches Some(p)
        && crate::text::contains_seq(p, "\"workspaces\""@)) {
        "monorepo_root"@
    } else {
        "single_project"@
    }
}

/// The repository's shape (see [`repo_shape_spec`]).
pub fn detect_repo_shape(marker: bool, cargo_text: Option<&str>, package_text: Option<&str>) -> (r: &'static str)
    ensures
        r@ == repo_shape_spec(marker, str_opt_view(cargo_text), str_opt_view(package_text)),
{
    if marker {
        return "monorepo_root";
    }
    if let Some(c) = cargo_text {
        if crate::text::str_contains(c, "[workspace]") {
            return "monorepo_root";
        }
    }
    if let Some(p) = package_text {
        if crate::text::str_contains(p, "\"workspaces\"") {
            return "monorepo_root";
        }
    }
    "single_project"
}

/// Where the license is stated: a license file, else the `license` of
/// `Cargo.toml`, else the `license` of `package.json`.
pub open spec fn license_source_spec(
    license_file: Option<Seq<char>>,
    cargo_text: Option<Seq<char>>,
    pkg: Option<(Option<Seq<char>>, Option<Seq<char>>, Option<Seq<Seq<char>>>)>,
) -> Option<Seq<char>> {
    match license_file {
        Some(f) => Some(f),
        None => match (match cargo_text {
            Some(c) => first_toml_value(lines(c), "license"@),
            None => None,
        }) {
            Some(l) => Some("Cargo.toml ("@ + l + ")"@),
            None => match pkg {
                Some((_, Some(l), _)) => Some("package.json ("@ + l + ")"@),
                _ => None,
            },
        },
    }
}

/// Where the license is stated (see [`license_source_spec`]).
pub fn detect_license_source(license_file: Option<&str>, cargo_text: Option<&str>, package_json: &Option<PackageJson>) -> (r: Option<String>)
    ensures
        opt_view(r) == license_source_spec(str_opt_view(license_file), str_opt_view(cargo_text), pkg_view(*package_json)),
{
    if let Some(f) = license_file {
        return Some(f.to_owned());
    }
    if let Some(c) = cargo_text {
        if let Some(l) = find_toml_string_value(c, "license") {
            let mut m = "Cargo.toml (".to_owned();
            push_str(&mut m, l.as_str());
            push_str(&mut m, ")");
            return Some(m);
        }
    }
    if let Some(p) = package_json {
        if let Some(l) = &p.license {
            let mut m = "package.json (".to_owned();
            push_str(&mut m, l.as_str());
            push_str(&mut m, ")");
            return Some(m);
        }
    }
    None
}

/// The most a file snippet shown to an agent holds, in UTF-8 bytes.
pub const MAX_CONTEXT_SNIPPET_BYTES: usize = 4096;

/// The number of bytes of a character in UTF-8.
pub open spec fn char_utf8_len(c: char) -> nat {
    if (c as u32) < 0x80 {
        1
    } else if (c as u32) < 0x800 {
        2
    } else if (c as u32) < 0x10000 {
        3
    } else {
        4
    }
}

/// The number of bytes of a text in UTF-8.
pub open spec fn utf8_len(s: Seq<char>) -> nat
    decreases s.len(),
{
    if s.len() == 0 {
        0
    } else {
        utf8_len(s.drop_last()) + char_utf8_len(s.last())
    }
}

/// A snippet cut to fit: a text within the limit is kept; a longer one keeps
/// the most leading characters whose bytes fit within the limit, then `...`.
pub open spec fn truncated_for_context(s: Seq<char>) -> Seq<char> {
    if utf8_len(s) <= MAX_CONTEXT_SNIPPET_BYTES {
        s
    } else {
        s.take(fitting_prefix_len(s, MAX_CONTEXT_SNIPPET_BYTES as nat) as int) + "..."@
    }
}

/// The number of leading characters of `s` whose bytes fit within `budget`.
pub open spec fn fitting_prefix_len(s: Seq<char>, budget: nat) -> nat
    decreases s.len(),
{
    if s.len() == 0 {
        0
    } else if char_utf8_len(s[0]) <= budget {
        1 + fitting_prefix_len(s.drop_first(), (budget - char_utf8_len(s[0])) as nat)
    } else {
        0
    }
}

proof fn lemma_utf8_len_prefix(s: Seq<char>, j: int)
    requires
        0 <= j <= s.len(),
    ensures
        utf8_len(s.take(j)) <= utf8_len(s),
    decreases s.len(),
{
    if j < s.len() {
        assert(s.drop_last().take(j) =~= s.take(j));
        lemma_utf8_len_prefix(s.drop_last(), j);
    } else {
        assert(s.take(j) =~= s);
    }
}

/// The bytes of a character in UTF-8 (see [`char_utf8_len`]).
fn utf8_width(c: char) -> (r: usize)
    ensures
        r == char_utf8_len(c),
{
    let u = c as u32;
    if u < 0x80 {
        1
    } else if u < 0x800 {
        2
    } else if u < 0x10000 {
        3
    } else {
        4
    }
}

/// Cuts a snippet to the limit (see [`truncated_for_context`]).
pub fn truncate_for_context(contents: &str) -> (r: String)
    ensures
        r@ == truncated_for_context(contents@),
{
    let v = crate::text::to_chars(contents);
    let mut k: usize = 0;
    let mut used: usize = 0;
    assert(v@.skip(0) =~= v@);
    assert(v@.take(0) =~= Seq::<char>::empty());
    while k < v.len() && used + utf8_width(v[k]) <= MAX_CONTEXT_SNIPPET_BYTES
        invariant
            k <= v@.len(),
            v@ == contents@,
            used <= MAX_CONTEXT_SNIPPET_BYTES,
            used == utf8_len(v@.take(k as int)),
            fitting_prefix_len(v@, MAX_CONTEXT_SNIPPET_BYTES as nat)
                == k + fitting_prefix_len(v@.skip(k as int), (MAX_CONTEXT_SNIPPET_BYTES - used) as nat),
        decreases v.len() - k,
    {
        let w = utf8_width(v[k]);
        assert(v@.skip(k as int)[0] == v@[k as int]);
        assert(v@.skip(k as int).drop_first() =~= v@.skip(k + 1));
        assert(v@.take(k + 1).drop_last() =~= v@.take(k as int));
        assert(v@.take(k + 1).last() == v@[k as int]);
        used = used + w;
        k = k + 1;
    }
    if k == v.len() {
        assert(v@.take(k as int) =~= v@);
        return contents.to_owned();
    }
    proof {
        assert(v@.skip(k as int)[0] == v@[k as int]);
        assert(v@.take(k + 1).drop_last() =~= v@.take(k as int));
        assert(v@.take(k + 1).last() == v@[k as int]);
        lemma_utf8_len_prefix(v@, k + 1);
    }
    let mut out = crate::text::string_from_range(&v, 0, k);
    push_str(&mut out, "...");
    out
}

/// The most subdirectories the inventory lists per directory.
pub const MAX_INVENTORY_ENTRIES_PER_DIR: usize = 12;

/// The directories whose subdirectories the inventory lists, in order; each
/// is listed under its own name.
pub open spec fn inventory_dirs_spec() -> Seq<Seq<char>> {
    seq!["apps"@, "packages"@, "crates"@]
}

/// The directories whose subdirectories the inventory lists (see
/// [`inventory_dirs_spec`]).
pub fn inventory_dirs() -> (r: Vec<&'static str>)
    ensures
        r@.map_values(|d: &'static str| d@) == inventory_dirs_spec(),
{
    let r = vec!["apps", "packages", "crates"];
    assert(r@.map_values(|d: &'static str| d@) =~= inventory_dirs_spec());
    r
}

/// One `- name` line per name.
pub open spec fn name_lines(names: Seq<Seq<char>>) -> Seq<char>
    decreases names.len(),
{
    if names.len() == 0 {
        Seq::empty()
    } else {
        name_lines(names.drop_last()) + "- "@ + names.last() + "\n"@
    }
}

/// The names a directory's section lists: sorted, at most the limit.
pub open spec fn kept_names(names: Seq<Seq<char>>) -> Seq<Seq<char>> {
    let sorted = names.sort_by(crate::sorting::str_order());
    if sorted.len() > MAX_INVENTORY_ENTRIES_PER_DIR {
        sorted.take(MAX_INVENTORY_ENTRIES_PER_DIR as int)
    } else {
        sorted
    }
}

/// A directory's section: its label in brackets, then its names, without
/// trailing whitespace.
pub open spec fn inventory_section(label: Seq<char>, names: Seq<Seq<char>>) -> Seq<char> {
    trim_end("["@ + label + "]\n"@ + name_lines(names))
}

/// The sections of the directories that have subdirectories, in order.
pub open spec fn inventory_sections(listings: Seq<(Seq<char>, Seq<Seq<char>>)>) -> Seq<Seq<char>>
    decreases listings.len(),
{
    if listings.len() == 0 {
        Seq::empty()
    } else {
        let rest = inventory_sections(listings.drop_last());
        let kept = kept_names(listings.last().1);
        if kept.len() == 0 {
            rest
        } else {
            rest.push(inventory_section(listings.last().0, kept))
        }
    }
}

/// The inventory of a workspace: its sections separated by blank lines, or
/// nothing where no directory has subdirectories.
pub open spec fn workspace_inventory_spec(listings: Seq<(Seq<char>, Seq<Seq<char>>)>) -> Option<Seq<char>> {
    let sections = inventory_sections(listings);
    if sections.len() == 0 {
        None
    } else {
        Some(join(sections, "\n\n"@))
    }
}

pub open spec fn listings_view(l: Seq<(String, Vec<String>)>) -> Seq<(Seq<char>, Seq<Seq<char>>)> {
    l.map_values(|e: (String, Vec<String>)| (e.0@, strs_view(e.1@)))
}

/// One directory's section (see [`inventory_section`]).
fn section_text(label: &str, names: &Vec<String>) -> (r: String)
    ensures
        r@ == inventory_section(label@, strs_view(names@)),
{
    let ghost nv = strs_view(names@);
    let mut text = "[".to_owned();
    push_str(&mut text, label);
    push_str(&mut text, "]\n");
    let ghost head = text@;
    let mut i: usize = 0;
    assert(nv.take(0) =~= Seq::<Seq<char>>::empty());
    assert(head + name_lines(nv.take(0)) =~= text@);
    while i < names.len()
        invariant
            i <= names@.len(),
            nv == strs_view(names@),
            text@ == head + name_lines(nv.take(i as int)),
        decreases names.len() - i,
    {
        assert(nv.take(i + 1).drop_last() =~= nv.take(i as int));
        assert(nv.take(i + 1).last() == names@[i as int]@);
        push_str(&mut text, "- ");
        push_str(&mut text, names[i].as_str());
        push_str(&mut text, "\n");
        assert(text@ =~= head + name_lines(nv.take(i + 1)));
        i += 1;
    }
    assert(nv.take(names@.len() as int) =~= nv);
    crate::text::trim_end_string(text.as_str())
}

/// The names a section lists (see [`kept_names`]).
fn keep_names(names: &Vec<String>) -> (r: Vec<String>)
    ensures
        strs_view(r@) == kept_names(strs_view(names@)),
{
    let sorted = crate::sorting::sort_strings(names);
    if sorted.len() <= MAX_INVENTORY_ENTRIES_PER_DIR {
        return sorted;
    }
    let mut r: Vec<String> = Vec::new();
    let mut i: usize = 0;
    assert(strs_view(r@) =~= strs_view(sorted@).take(0));
    while i < MAX_INVENTORY_ENTRIES_PER_DIR
        invariant
            i <= MAX_INVENTORY_ENTRIES_PER_DIR < sorted@.len(),
            strs_view(r@) == strs_view(sorted@).take(i as int),
        decreases MAX_INVENTORY_ENTRIES_PER_DIR - i,
    {
        let ghost before = r@;
        r.push(sorted[i].clone());
        assert(strs_view(r@) =~= strs_view(before).push(sorted@[i as int]@));
        assert(strs_view(r@) =~= strs_view(sorted@).take(i + 1));
        i += 1;
    }
    r
}

/// The inventory of a workspace, from each listed directory's label and the
/// names of its subdirectories, in the order of [`inventory_dirs`] (see
/// [`workspace_inventory_spec`]).
pub fn workspace_inventory(listings: &Vec<(String, Vec<String>)>) -> (r: Option<String>)
    ensures
        match r {
            Some(s) => workspace_inventory_spec(listings_view(listings@)) == Some(s@),
            None => workspace_inventory_spec(listings_view(listings@)) is None,
        },
{
    let ghost lv = listings_view(listings@);
    let mut sections: Vec<String> = Vec::new();
    let mut i: usize = 0;
    assert(lv.take(0) =~= Seq::<(Seq<char>, Seq<Seq<char>>)>::empty());
    assert(strs_view(sections@) =~= inventory_sections(lv.take(0)));
    while i < listings.len()
        invariant
            i <= listings@.len(),
            lv == listings_view(listings@),
            strs_view(sections@) == inventory_sections(lv.take(i as int)),
        decreases listings.len() - i,
    {
        assert(lv.take(i + 1).drop_last() =~= lv.take(i as int));
        assert(lv.take(i + 1).last() == (listings@[i as int].0@, strs_view(listings@[i as int].1@)));
        let kept = keep_names(&listings[i].1);
        if kept.len() > 0 {
            let section = section_text(listings[i].0.as_str(), &kept);
            let ghost before = sections@;
            sections.push(section);
            assert(strs_view(sections@) =~= strs_view(before).push(section@));
        }
        i += 1;
    }
    assert(lv.take(listings@.len() as int) =~= lv);
    if sections.len() == 0 {
        return None;
    }
    Some(join_strings(&sections, "\n\n"))
}

/// The inventory as summary lines: one per section, its line breaks written
/// as `; `.
pub open spec fn inventory_lines_spec(inventory: Option<Seq<char>>) -> Seq<Seq<char>> {
    match inventory {
        None => Seq::empty(),
        Some(c) => crate::text::split_str(c, "\n\n"@).map_values(
            |sec: Seq<char>| crate::license::replace_all(sec, "\n"@, "; "@),
        ),
    }
}

/// The inventory as summary lines (see [`inventory_lines_spec`]).
pub fn inventory_lines(inventory: &Option<String>) -> (r: Vec<String>)
    ensures
        strs_view(r@) == inventory_lines_spec(match inventory { Some(s) => Some(s@), None => None }),
{
    match inventory {
        None => {
            let r: Vec<String> = Vec::new();
            assert(strs_view(r@) =~= Seq::<Seq<char>>::empty());
            r
        },
        Some(content) => {
            proof {
                reveal_strlit("\n\n");
                reveal_strlit("\n");
            }
            let pieces = crate::text::split_by_str(content.as_str(), "\n\n");
            let ghost pv = strs_view(pieces@);
            let mut r: Vec<String> = Vec::new();
            let mut i: usize = 0;
            assert(strs_view(r@) =~= pv.take(0).map_values(|sec: Seq<char>| crate::license::replace_all(sec, "\n"@, "; "@)));
            while i < pieces.len()
                invariant
                    i <= pieces@.len(),
                    pv == strs_view(pieces@),
                    "\n"@.len() > 0,
                    strs_view(r@) == pv.take(i as int).map_values(|sec: Seq<char>| crate::license::replace_all(sec, "\n"@, "; "@)),
                decreases pieces.len() - i,
            {
                let line = crate::license::replace_str(pieces[i].as_str(), "\n", "; ");
                let ghost before = r@;
                r.push(line);
                assert(strs_view(r@) =~= strs_view(before).push(line@));
                assert(pv.take(i + 1)[i as int] == pieces@[i as int]@);
                assert(strs_view(r@) =~= pv.take(i + 1).map_values(|sec: Seq<char>| crate::license::replace_all(sec, "\n"@, "; "@)));
                i += 1;
            }
            assert(pv.take(pieces@.len() as int) =~= pv);
            r
        },
    }
}

/// The most workflow files shown to an agent.
pub const MAX_WORKFLOW_SNIPPETS: usize = 8;

/// The files of a repository shown to an agent where they exist, in order.
pub open spec fn snippet_candidates_spec() -> Seq<Seq<char>> {
    seq![
        "Cargo.toml"@, "package.json"@, "pnpm-workspace.yaml"@, "pyproject.toml"@, "go.mod"@, "go.work"@,
        "justfile"@, "Makefile"@, "Dockerfile"@, "compose.yaml"@, "docker-compose.yml"@, "README.md"@,
        "CONTRIBUTING.md"@, "LICENSE"@, "docs/README.md"@,
    ]
}

/// The files of a repository shown to an agent (see [`snippet_candidates_spec`]).
pub fn snippet_candidates() -> (r: Vec<&'static str>)
    ensures
        r@.map_values(|d: &'static str| d@) == snippet_candidates_spec(),
{
    let r = vec![
        "Cargo.toml", "package.json", "pnpm-workspace.yaml", "pyproject.toml", "go.mod", "go.work", "justfile",
        "Makefile", "Dockerfile", "compose.yaml", "docker-compose.yml", "README.md", "CONTRIBUTING.md", "LICENSE",
        "docs/README.md",
    ];
    assert(r@.map_values(|d: &'static str| d@) =~= snippet_candidates_spec());
    r
}

/// A file shown to an agent under `display_path`, cut to the limit.
pub fn context_snippet(display_path: &str, content: &str) -> (r: ContextSnippet)
    ensures
        r.path@ == display_path@,
        r.content@ == truncated_for_context(content@),
{
    ContextSnippet { path: display_path.to_owned(), content: truncate_for_context(content) }
}

/// The workflow files shown to an agent: the first few file names in sorted
/// order, each under `.github/workflows/`.
pub open spec fn workflow_snippet_paths_spec(file_names: Seq<Seq<char>>) -> Seq<Seq<char>> {
    let sorted = file_names.sort_by(crate::sorting::str_order());
    let kept = if sorted.len() > MAX_WORKFLOW_SNIPPETS { sorted.take(MAX_WORKFLOW_SNIPPETS as int) } else { sorted };
    kept.map_values(|n: Seq<char>| ".github/workflows/"@ + n)
}

/// The workflow files shown to an agent (see [`workflow_snippet_paths_spec`]).
pub fn workflow_snippet_paths(file_names: &Vec<String>) -> (r: Vec<String>)
    ensures
        strs_view(r@) == workflow_snippet_paths_spec(strs_view(file_names@)),
{
    let sorted = crate::sorting::sort_strings(file_names);
    let ghost sv = strs_view(sorted@);
    let n = if sorted.len() > MAX_WORKFLOW_SNIPPETS { MAX_WORKFLOW_SNIPPETS } else { sorted.len() };
    let ghost kept = if sv.len() > MAX_WORKFLOW_SNIPPETS { sv.take(MAX_WORKFLOW_SNIPPETS as int) } else { sv };
    assert(kept =~= sv.take(n as int));
    let mut r: Vec<String> = Vec::new();
    let mut i: usize = 0;
    assert(strs_view(r@) =~= kept.take(0).map_values(|n: Seq<char>| ".github/workflows/"@ + n));
    while i < n
        invariant
            n <= sorted@.len(),
            sv == strs_view(sorted@),
            kept == sv.take(n as int),
            i <= n,
            strs_view(r@) == kept.take(i as int).map_values(|n: Seq<char>| ".github/workflows/"@ + n),
        decreases n - i,
    {
        let mut p = ".github/workflows/".to_owned();
        push_str(&mut p, sorted[i].as_str());
        let ghost before = r@;
        r.push(p);
        assert(strs_view(r@) =~= strs_view(before).push(p@));
        assert(kept.take(i + 1)[i as int] == sorted@[i as int]@);
        assert(strs_view(r@) =~= kept.take(i + 1).map_values(|n: Seq<char>| ".github/workflows/"@ + n));
        i += 1;
    }
    assert(kept.take(n as int) =~= kept);
    r
}

} // verus!

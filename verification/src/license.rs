//! License templates from the choosealicense.com data: their metadata, the
//! rules they list, and their bodies with placeholders in template syntax.
use crate::frontmatter::{split_frontmatter, split_spec, FrontmatterSplitError};
use crate::paths::{camino_components, path_components};
use crate::text::{has_prefix, join, join_strings, lower_seq, push_str, str_eq, strs_view, to_ascii_lowercase};
use vstd::prelude::*;

verus! {

/// A permission, condition or limitation of a license.
pub struct LicenseRule {
    pub tag: String,
    pub label: String,
    pub description: String,
}

/// A license of the catalog.
pub struct LicenseMetadata {
    pub id: String,
    pub spdx_id: String,
    pub title: String,
    pub nickname: Option<String>,
    pub description: String,
    pub how: String,
    pub permissions: Vec<LicenseRule>,
    pub conditions: Vec<LicenseRule>,
    pub limitations: Vec<LicenseRule>,
    pub featured: bool,
    pub hidden: bool,
    pub source_path: String,
    pub raw_body: String,
    pub template_body: String,
}

/// The frontmatter fields of a license file.
pub struct ChooseALicenseFrontmatter {
    pub title: String,
    pub spdx_id: String,
    pub description: String,
    pub how: String,
    pub permissions: Vec<String>,
    pub conditions: Vec<String>,
    pub limitations: Vec<String>,
    pub featured: bool,
    pub hidden: bool,
    pub nickname: Option<String>,
}

/// `s` with every occurrence of `from` replaced by `to`, scanning left to right
/// without overlap (`str::replace`, for a non-empty `from`).
pub open spec fn replace_all(s: Seq<char>, from: Seq<char>, to: Seq<char>) -> Seq<char>
    recommends
        from.len() > 0,
    decreases s.len(),
{
    if s.len() == 0 || from.len() == 0 {
        s
    } else if has_prefix(s, from) {
        to + replace_all(s.skip(from.len() as int), from, to)
    } else {
        seq![s[0]] + replace_all(s.drop_first(), from, to)
    }
}

/// The placeholders of choosealicense.com and the template expressions that
/// replace them, in the order they are applied.
pub open spec fn placeholder_map() -> Seq<(Seq<char>, Seq<char>)> {
    seq![
        ("[year]"@, "{{ year }}"@),
        ("[fullname]"@, "{{ fullname }}"@),
        ("[email]"@, "{{ email }}"@),
        ("[project]"@, "{{ project }}"@),
        ("[description]"@, "{{ description }}"@),
        ("[projecturl]"@, "{{ projecturl }}"@),
        ("[login]"@, "{{ login }}"@),
    ]
}

/// The replacements applied one after another.
pub open spec fn replace_each(s: Seq<char>, map: Seq<(Seq<char>, Seq<char>)>) -> Seq<char>
    decreases map.len(),
{
    if map.len() == 0 {
        s
    } else {
        replace_each(replace_all(s, map[0].0, map[0].1), map.drop_first())
    }
}

/// Replaces every occurrence of `from` by `to` (see [`replace_all`]).
pub fn replace_str(s: &str, from: &str, to: &str) -> (r: String)
    requires
        from@.len() > 0,
    ensures
        r@ == replace_all(s@, from@, to@),
{
    let v = crate::text::to_chars(s);
    let f = crate::text::to_chars(from);
    let mut out = String::new();
    let mut i: usize = 0;
    assert(v@.skip(0) =~= v@);
    while i < v.len()
        invariant
            i <= v@.len(),
            v@ == s@,
            f@ == from@,
            from@.len() > 0,
            out@ + replace_all(v@.skip(i as int), from@, to@) == replace_all(s@, from@, to@),
        decreases v.len() - i,
    {
        let ghost rest = v@.skip(i as int);
        if matches_at(&v, &f, i) {
            assert(rest.subrange(0, f@.len() as int) =~= v@.subrange(i as int, i + f@.len()));
            assert(rest.skip(from@.len() as int) =~= v@.skip(i + f@.len()));
            let ghost old_out = out@;
            push_str(&mut out, to);
            assert(old_out + (to@ + replace_all(v@.skip(i + f@.len()), from@, to@)) =~= out@ + replace_all(v@.skip(i + f@.len()), from@, to@));
            i = i + f.len();
        } else {
            proof {
                if has_prefix(rest, from@) {
                    assert(rest.subrange(0, f@.len() as int) =~= v@.subrange(i as int, i + f@.len()));
                }
            }
            assert(rest.drop_first() =~= v@.skip(i + 1));
            assert(rest[0] == v@[i as int]);
            let ghost old_out = out@;
            crate::text::push_char(&mut out, v[i]);
            assert(old_out + (seq![v@[i as int]] + replace_all(v@.skip(i + 1), from@, to@)) =~= out@ + replace_all(v@.skip(i + 1), from@, to@));
            i = i + 1;
        }
    }
    assert(v@.skip(i as int) =~= Seq::<char>::empty());
    assert(out@ + Seq::<char>::empty() =~= out@);
    out
}

/// Whether `p` occurs in `v` at `i`, wholly inside `v`.
fn matches_at(v: &Vec<char>, p: &Vec<char>, i: usize) -> (r: bool)
    requires
        i <= v@.len(),
    ensures
        r == (i + p@.len() <= v@.len() && v@.subrange(i as int, i + p@.len()) == p@),
{
    let n = v.len();
    if p.len() > n - i {
        return false;
    }
    let mut k: usize = 0;
    while k < p.len()
        invariant
            k <= p@.len(),
            n == v@.len(),
            i + p@.len() <= v@.len(),
            forall|j: int| 0 <= j < k ==> v@[i + j] == p@[j],
        decreases p.len() - k,
    {
        if v[i + k] != p[k] {
            assert(v@.subrange(i as int, i + p@.len())[k as int] != p@[k as int]);
            return false;
        }
        k += 1;
    }
    assert(v@.subrange(i as int, i + p@.len()) =~= p@);
    true
}

/// A license body with choosealicense.com placeholders written as template
/// expressions (see [`placeholder_map`]).
pub fn normalize_choosealicense_placeholders(body: &str) -> (r: String)
    ensures
        r@ == replace_each(body@, placeholder_map()),
{
    proof {
        reveal_strlit("[year]");
        reveal_strlit("[fullname]");
        reveal_strlit("[email]");
        reveal_strlit("[project]");
        reveal_strlit("[description]");
        reveal_strlit("[projecturl]");
        reveal_strlit("[login]");
    }
    let ghost m = placeholder_map();
    let r = replace_str(body, "[year]", "{{ year }}");
    let r = replace_str(r.as_str(), "[fullname]", "{{ fullname }}");
    let r = replace_str(r.as_str(), "[email]", "{{ email }}");
    let r = replace_str(r.as_str(), "[project]", "{{ project }}");
    let r = replace_str(r.as_str(), "[description]", "{{ description }}");
    let r = replace_str(r.as_str(), "[projecturl]", "{{ projecturl }}");
    let r = replace_str(r.as_str(), "[login]", "{{ login }}");
    proof {
        assert(m.drop_first().drop_first().drop_first().drop_first().drop_first().drop_first().drop_first().len() == 0);
        reveal_with_fuel(replace_each, 8);
    }
    r
}

/// The rule for a tag: the last definition with that tag, as a map built from
/// the definitions in order keeps it.
pub open spec fn rule_for(rules: Seq<LicenseRule>, tag: Seq<char>) -> Option<LicenseRule>
    decreases rules.len(),
{
    if rules.len() == 0 {
        None
    } else if rules.last().tag@ == tag {
        Some(rules.last())
    } else {
        rule_for(rules.drop_last(), tag)
    }
}

/// The rules for a list of tags; the first tag without a definition is an error.
pub open spec fn resolve_spec(tags: Seq<Seq<char>>, rules: Seq<LicenseRule>) -> Result<Seq<LicenseRule>, Seq<char>>
    decreases tags.len(),
{
    if tags.len() == 0 {
        Ok(Seq::empty())
    } else {
        match resolve_spec(tags.drop_last(), rules) {
            Err(e) => Err(e),
            Ok(rs) => match rule_for(rules, tags.last()) {
                Some(r) => Ok(rs.push(r)),
                None => Err("missing rule definition for `"@ + tags.last() + "`"@),
            },
        }
    }
}

pub open spec fn rule_view(r: LicenseRule) -> (Seq<char>, Seq<char>, Seq<char>) {
    (r.tag@, r.label@, r.description@)
}

pub open spec fn rules_view(rs: Seq<LicenseRule>) -> Seq<(Seq<char>, Seq<char>, Seq<char>)> {
    rs.map_values(|r: LicenseRule| rule_view(r))
}

fn copy_rule(r: &LicenseRule) -> (c: LicenseRule)
    ensures
        rule_view(c) == rule_view(*r),
{
    LicenseRule { tag: r.tag.clone(), label: r.label.clone(), description: r.description.clone() }
}

/// The rule for a tag (see [`rule_for`]).
fn find_rule(rules: &Vec<LicenseRule>, tag: &str) -> (r: Option<LicenseRule>)
    ensures
        match r {
            Some(x) => rule_for(rules@, tag@) matches Some(y) && rule_view(x) == rule_view(y),
            None => rule_for(rules@, tag@) is None,
        },
{
    let mut i: usize = rules.len();
    assert(rules@.take(i as int) =~= rules@);
    while i > 0
        invariant
            i <= rules@.len(),
            rule_for(rules@, tag@) == rule_for(rules@.take(i as int), tag@),
        decreases i,
    {
        assert(rules@.take(i as int).last() == rules@[i - 1]);
        assert(rules@.take(i as int).drop_last() =~= rules@.take(i - 1));
        if str_eq(rules[i - 1].tag.as_str(), tag) {
            return Some(copy_rule(&rules[i - 1]));
        }
        i -= 1;
    }
    assert(rules@.take(0) =~= Seq::<LicenseRule>::empty());
    None
}

pub open spec fn resolve_view(r: Result<Seq<LicenseRule>, Seq<char>>) -> Result<Seq<(Seq<char>, Seq<char>, Seq<char>)>, Seq<char>> {
    match r {
        Ok(rs) => Ok(rules_view(rs)),
        Err(e) => Err(e),
    }
}

/// The rules for a list of tags (see [`resolve_spec`]).
pub fn resolve_rules(tags: &Vec<String>, rules: &Vec<LicenseRule>) -> (r: Result<Vec<LicenseRule>, String>)
    ensures
        match r {
            Ok(v) => resolve_view(resolve_spec(strs_view(tags@), rules@)) == Ok::<Seq<(Seq<char>, Seq<char>, Seq<char>)>, Seq<char>>(rules_view(v@)),
            Err(m) => resolve_spec(strs_view(tags@), rules@) == Err::<Seq<LicenseRule>, Seq<char>>(m@),
        },
{
    let ghost ts = strs_view(tags@);
    let mut out: Vec<LicenseRule> = Vec::new();
    let mut i: usize = 0;
    assert(ts.take(0) =~= Seq::<Seq<char>>::empty());
    assert(rules_view(out@) =~= Seq::<(Seq<char>, Seq<char>, Seq<char>)>::empty());
    while i < tags.len()
        invariant
            i <= tags@.len(),
            ts == strs_view(tags@),
            resolve_view(resolve_spec(ts.take(i as int), rules@)) == Ok::<Seq<(Seq<char>, Seq<char>, Seq<char>)>, Seq<char>>(rules_view(out@)),
        decreases tags.len() - i,
    {
        assert(ts.take(i + 1).drop_last() =~= ts.take(i as int));
        assert(ts.take(i + 1).last() == tags@[i as int]@);
        match find_rule(rules, tags[i].as_str()) {
            Some(rule) => {
                let ghost before = rules_view(out@);
                let ghost rv = rule_view(rule);
                out.push(rule);
                assert(rules_view(out@) =~= before.push(rv));
                proof {
                    let rs = match resolve_spec(ts.take(i as int), rules@) {
                        Ok(rs) => rs,
                        Err(_) => Seq::empty(),
                    };
                    let y = match rule_for(rules@, ts[i as int]) {
                        Some(y) => y,
                        None => rule,
                    };
                    assert(rules_view(rs.push(y)) =~= rules_view(rs).push(rule_view(y)));
                }
            },
            None => {
                let mut m = "missing rule definition for `".to_owned();
                push_str(&mut m, tags[i].as_str());
                push_str(&mut m, "`");
                proof {
                    lemma_resolve_error_sticks(ts, rules@, i + 1);
                }
                return Err(m);
            },
        }
        i += 1;
    }
    assert(ts.take(tags@.len() as int) =~= ts);
    Ok(out)
}

/// Once a prefix of the tags fails, the whole list fails the same way.
pub proof fn lemma_resolve_error_sticks(ts: Seq<Seq<char>>, rules: Seq<LicenseRule>, k: int)
    requires
        0 <= k <= ts.len(),
        resolve_spec(ts.take(k), rules) is Err,
    ensures
        resolve_spec(ts, rules) == resolve_spec(ts.take(k), rules),
    decreases ts.len() - k,
{
    if k == ts.len() {
        assert(ts.take(k) =~= ts);
    } else {
        assert(ts.take(k + 1).drop_last() =~= ts.take(k));
        lemma_resolve_error_sticks(ts, rules, k + 1);
    }
}

/// Why a license file could not be read.
pub enum LicenseSourceError {
    /// The file does not start with `---\n`; the path as joined.
    MissingStart(String),
    /// No `\n---\n` closes the frontmatter; the path as joined.
    MissingEnd(String),
    /// The message of another failure.
    Other(String),
}

impl LicenseSourceError {
    /// The error's message.
    pub fn message(&self) -> (m: String)
        ensures
            self matches LicenseSourceError::MissingStart(p) ==> m@ == "missing frontmatter start in "@ + p@,
            self matches LicenseSourceError::MissingEnd(p) ==> m@ == "missing frontmatter end in "@ + p@,
            self matches LicenseSourceError::Other(t) ==> m@ == t@,
    {
        match self {
            LicenseSourceError::MissingStart(p) => {
                let mut m = "missing frontmatter start in ".to_owned();
                push_str(&mut m, p.as_str());
                m
            },
            LicenseSourceError::MissingEnd(p) => {
                let mut m = "missing frontmatter end in ".to_owned();
                push_str(&mut m, p.as_str());
                m
            },
            LicenseSourceError::Other(t) => t.clone(),
        }
    }
}

/// A license file split into its frontmatter text and body.
pub fn split_license_source(relative: &str, source: &str) -> (r: Result<(String, String), LicenseSourceError>)
    ensures
        match split_spec(source@) {
            Ok((f, b)) => r matches Ok((x, y)) && x@ == f && y@ == b,
            Err(FrontmatterSplitError::MissingStart) => r matches Err(LicenseSourceError::MissingStart(p)) && p@ == relative@,
            Err(FrontmatterSplitError::MissingEnd) => r matches Err(LicenseSourceError::MissingEnd(p)) && p@ == relative@,
        },
{
    match split_frontmatter(source) {
        Ok(parts) => Ok(parts),
        Err(FrontmatterSplitError::MissingStart) => Err(LicenseSourceError::MissingStart(relative.to_owned())),
        Err(FrontmatterSplitError::MissingEnd) => Err(LicenseSourceError::MissingEnd(relative.to_owned())),
    }
}

/// The path of a license file as stored: its components joined by `/`.
pub fn license_source_path(relative: &str) -> (r: String)
    ensures
        r@ == join(camino_components(relative@), "/"@),
{
    let parts = path_components(relative);
    assert(strs_view(parts@) == camino_components(relative@));
    join_strings(&parts, "/")
}

/// A license built from its frontmatter and body; the rules of each list are
/// resolved in turn, and the first missing one is an error.
pub fn metadata_from_parts(
    relative: &str,
    front: ChooseALicenseFrontmatter,
    body: &str,
    rule_lookup: &Vec<LicenseRule>,
) -> (r: Result<LicenseMetadata, String>)
    ensures
        match r {
            Ok(m) => {
                &&& m.id@ == lower_seq(front.spdx_id@)
                &&& m.spdx_id@ == front.spdx_id@
                &&& m.title@ == front.title@
                &&& m.description@ == front.description@
                &&& m.how@ == front.how@
                &&& m.featured == front.featured
                &&& m.hidden == front.hidden
                &&& m.source_path@ == join(camino_components(relative@), "/"@)
                &&& m.raw_body@ == body@
                &&& m.template_body@ == replace_each(body@, placeholder_map())
                &&& resolve_view(resolve_spec(strs_view(front.permissions@), rule_lookup@)) == Ok::<Seq<(Seq<char>, Seq<char>, Seq<char>)>, Seq<char>>(rules_view(m.permissions@))
                &&& resolve_view(resolve_spec(strs_view(front.conditions@), rule_lookup@)) == Ok::<Seq<(Seq<char>, Seq<char>, Seq<char>)>, Seq<char>>(rules_view(m.conditions@))
                &&& resolve_view(resolve_spec(strs_view(front.limitations@), rule_lookup@)) == Ok::<Seq<(Seq<char>, Seq<char>, Seq<char>)>, Seq<char>>(rules_view(m.limitations@))
            },
            Err(e) => {
                ||| resolve_spec(strs_view(front.permissions@), rule_lookup@) == Err::<Seq<LicenseRule>, Seq<char>>(e@)
                ||| (resolve_spec(strs_view(front.permissions@), rule_lookup@) is Ok
                    && resolve_spec(strs_view(front.conditions@), rule_lookup@) == Err::<Seq<LicenseRule>, Seq<char>>(e@))
                ||| (resolve_spec(strs_view(front.permissions@), rule_lookup@) is Ok
                    && resolve_spec(strs_view(front.conditions@), rule_lookup@) is Ok
                    && resolve_spec(strs_view(front.limitations@), rule_lookup@) == Err::<Seq<LicenseRule>, Seq<char>>(e@))
            },
        },
        (resolve_spec(strs_view(front.permissions@), rule_lookup@) is Ok && resolve_spec(strs_view(front.conditions@), rule_lookup@) is Ok
            && resolve_spec(strs_view(front.limitations@), rule_lookup@) is Ok) ==> r is Ok,
{
    let permissions = match resolve_rules(&front.permissions, rule_lookup) {
        Ok(v) => v,
        Err(e) => {
            return Err(e);
        },
    };
    let conditions = match resolve_rules(&front.conditions, rule_lookup) {
        Ok(v) => v,
        Err(e) => {
            return Err(e);
        },
    };
    let limitations = match resolve_rules(&front.limitations, rule_lookup) {
        Ok(v) => v,
        Err(e) => {
            return Err(e);
        },
    };
    Ok(LicenseMetadata {
        id: to_ascii_lowercase(front.spdx_id.as_str()),
        spdx_id: front.spdx_id,
        title: front.title,
        nickname: front.nickname,
        description: front.description,
        how: front.how,
        permissions,
        conditions,
        limitations,
        featured: front.featured,
        hidden: front.hidden,
        source_path: license_source_path(relative),
        raw_body: body.to_owned(),
        template_body: normalize_choosealicense_placeholders(body),
    })
}

} // verus!

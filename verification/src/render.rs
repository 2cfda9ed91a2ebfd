//! Rendering prepared templates: literal text as written, text placeholders and
//! expressions through the `tera` template engine, AI placeholders from the
//! values an agent wrote.
use crate::bundle::PreparedTemplate;
use crate::templates::{
    ai_sentinel, ai_sentinel_spec, fragment_well_formed, fragments_well_formed, frags_view, tera_expression,
    valid_identifier, without_whitespace, FragmentView, TemplateFragment,
};
use crate::text::{has_prefix, is_whitespace, push_str, trim, trim_string};
use crate::value_map::ValueMap;
use std::collections::BTreeMap;
use tera::Context;
use vstd::prelude::*;

verus! {

broadcast use {vstd::std_specs::btree::group_btree_axioms, vstd::laws_cmp::group_laws_cmp};

#[verifier::external_type_specification]
#[verifier::external_body]
pub struct ExTeraContext(tera::Context);

/// The string values a `tera::Context` holds, by name.
pub uninterp spec fn tera_context_entries(c: Context) -> Map<Seq<char>, Seq<char>>;

/// Whether `tera` refuses the template text: `Some` with its message where
/// `tera::Tera::add_raw_template` fails on it.
pub uninterp spec fn tera_parse_error(template: Seq<char>) -> Option<Seq<char>>;

/// What `tera::Tera::render_str` gives for a template `{{ e }}` whose `e` is a
/// variable name or a call of `current_year` or `repo_name` (see
/// [`safe_expression`]), a context of string values, and the functions
/// `current_year` and `repo_name` answering `year` and `repo_name`: the text,
/// or the error's message. Such a template reads neither the clock nor random
/// numbers nor the environment through tera's built-in functions, so its
/// result is a function of these arguments; the name is applied to no other
/// template.
pub uninterp spec fn tera_rendered(
    template: Seq<char>,
    context: Map<Seq<char>, Seq<char>>,
    repo_name: Seq<char>,
    year: int,
) -> Result<Seq<char>, Seq<char>>;

/// The empty map of values.
pub open spec fn no_values() -> Map<Seq<char>, Seq<char>> {
    Map::empty()
}

/// `tera::Context::new`: a context with no values.
#[verifier::external_body]
fn context_new() -> (ctx: Context)
    ensures
        tera_context_entries(ctx) == no_values(),
{
    tera::Context::new()
}

/// `tera::Context::insert` of a string value: the value is stored under `key`,
/// replacing an earlier one.
#[verifier::external_body]
fn context_insert(c: &mut Context, key: &str, value: &str)
    ensures
        tera_context_entries(*final(c)) == tera_context_entries(*old(c)).insert(key@, value@),
{
    c.insert(key, value);
}

/// A name that tera reads, in `{{ name }}`, as a plain lookup of a context
/// value: an identifier that is not `not`, starts with none of tera's boolean
/// literals (`true`, `false`, `True`, `False`, which the grammar tries first),
/// and is not the variable `__tera_context` that dumps the whole context.
pub open spec fn plain_variable(n: Seq<char>) -> bool {
    &&& valid_identifier(n)
    &&& !has_prefix(n, "true"@)
    &&& !has_prefix(n, "false"@)
    &&& !has_prefix(n, "True"@)
    &&& !has_prefix(n, "False"@)
    &&& n != "not"@
    &&& n != "__tera_context"@
}

/// `tera::Tera::add_raw_template` on a fresh engine: the parse error's message,
/// if any (see [`tera_parse_error`]). A template `{{ name }}` of a plain
/// variable parses.
#[verifier::external_body]
fn tera_check(template: &str) -> (r: Option<String>)
    ensures
        match r {
            Some(m) => tera_parse_error(template@) == Some(m@),
            None => tera_parse_error(template@) is None,
        },
        (exists|n: Seq<char>| #[trigger] plain_variable(n) && template@ == expression_template(n)) ==> r is None,
{
    let mut tera = tera::Tera::default();
    tera.add_raw_template("expression", template).err().map(|e| e.to_string())
}

/// `tera::Tera::render_str` on an engine without autoescaping whose functions
/// `current_year` and `repo_name` give `year` and `repo_name`. For a template
/// `{{ e }}` with `e` a safe expression the result is [`tera_rendered`]; for
/// any other template nothing is stated, as tera's built-in functions may read
/// the clock, random numbers or the environment. A template `{{ name }}` of a
/// plain variable that the context holds renders that value as it is: values
/// are strings and nothing is escaped.
#[verifier::external_body]
fn tera_render(template: &str, context: &Context, repo_name: &str, year: i32) -> (r: Result<String, String>)
    ensures
        r matches Ok(s) ==> forall|n: Seq<char>| #[trigger] plain_variable(n) && template@ == expression_template(n)
            && tera_context_entries(*context).contains_key(n) ==> s@ == tera_context_entries(*context)[n],
        r is Err ==> forall|n: Seq<char>| !(#[trigger] plain_variable(n) && template@ == expression_template(n)
            && tera_context_entries(*context).contains_key(n)),
        (exists|e: Seq<char>| #[trigger] safe_expression(e) && template@ == expression_template(e)) ==> match r {
            Ok(s) => tera_rendered(template@, tera_context_entries(*context), repo_name@, year as int) == Ok::<Seq<char>, Seq<char>>(s@),
            Err(m) => tera_rendered(template@, tera_context_entries(*context), repo_name@, year as int) == Err::<Seq<char>, Seq<char>>(m@),
        },
{
    let mut tera = tera::Tera::default();
    tera.autoescape_on(Vec::new());
    tera.register_function("current_year", move |_: &std::collections::HashMap<String, serde_json::Value>| Ok(serde_json::Value::from(year)));
    let name = repo_name.to_owned();
    tera.register_function("repo_name", move |_: &std::collections::HashMap<String, serde_json::Value>| Ok(serde_json::Value::from(name.clone())));
    tera.render_str(template, context).map_err(|e| e.to_string())
}

/// `time::OffsetDateTime::now_utc().year()`: the current year in UTC. It rests on
/// the clock, so nothing is stated of it.
#[verifier::external_body]
pub(crate) fn current_year() -> i32 {
    time::OffsetDateTime::now_utc().year()
}

/// The expressions whose rendering is a function of the values and the year:
/// a variable name, or a call of `current_year` or `repo_name` (the
/// expressions that parsed templates hold).
pub open spec fn safe_expression(e: Seq<char>) -> bool {
    valid_identifier(e) || tera_expression(e) is Some
}

/// Text without whitespace is its own compact form.
proof fn lemma_without_whitespace_of_compact(s: Seq<char>)
    requires
        forall|i: int| 0 <= i < s.len() ==> !is_whitespace(#[trigger] s[i]),
    ensures
        without_whitespace(s) == s,
    decreases s.len(),
{
    if s.len() > 0 {
        lemma_without_whitespace_of_compact(s.drop_last());
        assert(!is_whitespace(s[s.len() - 1]));
        assert(s.drop_last().push(s.last()) =~= s);
    }
}

/// Fragments as parsing makes them hold only safe expressions.
pub proof fn lemma_well_formed_fragments_are_safe(fs: Seq<FragmentView>)
    requires
        fragments_well_formed(fs),
    ensures
        frags_safe(fs),
{
    reveal_strlit("current_year()");
    reveal_strlit("repo_name()");
    lemma_without_whitespace_of_compact("current_year()"@);
    lemma_without_whitespace_of_compact("repo_name()"@);
    assert forall|i: int| 0 <= i < fs.len() implies match #[trigger] fs[i] {
        FragmentView::Text(n, _) => safe_expression(n),
        FragmentView::Expression(e) => safe_expression(e),
        _ => true,
    } by {
        assert(fragment_well_formed(fs[i]));
    }
}

/// Every text name and expression of the fragments is a safe expression.
pub open spec fn frags_safe(fs: Seq<FragmentView>) -> bool {
    forall|i: int| 0 <= i < fs.len() ==> match #[trigger] fs[i] {
        FragmentView::Text(n, _) => safe_expression(n),
        FragmentView::Expression(e) => safe_expression(e),
        _ => true,
    }
}

/// The template text that renders one expression: `{{ expression }}`.
pub open spec fn expression_template(e: Seq<char>) -> Seq<char> {
    "{{ "@ + e + " }}"@
}

/// The repository name the `repo_name()` function gives: the value named
/// `repo_name` unless it is blank, else `project`.
pub open spec fn repo_name_for(values: Map<Seq<char>, Seq<char>>) -> Seq<char> {
    if values.contains_key("repo_name"@) && trim(values["repo_name"@]).len() > 0 {
        values["repo_name"@]
    } else {
        "project"@
    }
}

/// Why rendering stopped.
pub enum RenderFailure {
    /// The expression does not parse: the expression and the engine's message.
    InvalidExpression(String, String),
    /// The expression failed to render: the expression and the engine's message.
    RenderFailed(String, String),
    /// No agent value for the AI placeholder with this index.
    MissingAi(usize),
}

/// A render failure as text.
pub enum FailureView {
    InvalidExpression(Seq<char>, Seq<char>),
    RenderFailed(Seq<char>, Seq<char>),
    MissingAi(nat),
}

impl RenderFailure {
    pub open spec fn view(&self) -> FailureView {
        match self {
            RenderFailure::InvalidExpression(e, m) => FailureView::InvalidExpression(e@, m@),
            RenderFailure::RenderFailed(e, m) => FailureView::RenderFailed(e@, m@),
            RenderFailure::MissingAi(i) => FailureView::MissingAi(*i as nat),
        }
    }
}

/// A result as text.
pub open spec fn outcome_view(r: Result<String, RenderFailure>) -> Result<Seq<char>, FailureView> {
    match r {
        Ok(s) => Ok(s@),
        Err(f) => Err(f@),
    }
}

/// What a safe expression renders to with the values `values` in the year
/// `year`: a plain variable that has a value renders as that value.
pub open spec fn expression_outcome(e: Seq<char>, values: Map<Seq<char>, Seq<char>>, year: int) -> Result<
    Seq<char>,
    FailureView,
> {
    if plain_variable(e) && values.contains_key(e) {
        Ok(values[e])
    } else {
    match tera_parse_error(expression_template(e)) {
        Some(m) => Err(FailureView::InvalidExpression(e, m)),
        None => match tera_rendered(expression_template(e), values, repo_name_for(values), year) {
            Ok(s) => Ok(s),
            Err(m) => Err(FailureView::RenderFailed(e, m)),
        },
    }
    }
}

/// What an expression that is not safe renders to: a parse error as for any
/// expression; otherwise some text, or a render failure of that expression.
pub open spec fn unsafe_outcome_allowed(e: Seq<char>, r: Result<Seq<char>, FailureView>) -> bool {
    match tera_parse_error(expression_template(e)) {
        Some(m) => r == Err::<Seq<char>, FailureView>(FailureView::InvalidExpression(e, m)),
        None => r is Ok || (r matches Err(FailureView::RenderFailed(x, _)) && x == e),
    }
}

/// The text of one fragment. `active` names the AI placeholder that is being
/// written, which shows as its sentinel; `None` renders the final file, where
/// every AI placeholder needs a value. Otherwise an AI placeholder without a
/// value shows as written, `{{ai:prompt}}`.
pub open spec fn fragment_outcome(
    f: FragmentView,
    values: Map<Seq<char>, Seq<char>>,
    ai: Map<usize, String>,
    active: Option<nat>,
    year: int,
) -> Result<Seq<char>, FailureView> {
    match f {
        FragmentView::Literal(t) => Ok(t),
        FragmentView::Text(name, _) => expression_outcome(name, values, year),
        FragmentView::Expression(e) => expression_outcome(e, values, year),
        FragmentView::Ai(index, prompt) => match active {
            Some(a) => if index == a {
                Ok(ai_sentinel_spec(index))
            } else if index <= usize::MAX && ai.contains_key(index as usize) {
                Ok(ai[index as usize]@)
            } else {
                Ok("{{ai:"@ + prompt + "}}"@)
            },
            None => if index <= usize::MAX && ai.contains_key(index as usize) {
                Ok(ai[index as usize]@)
            } else {
                Err(FailureView::MissingAi(index))
            },
        },
    }
}

/// The fragments rendered one after another; the first failure stops it.
pub open spec fn fragments_outcome(
    fs: Seq<FragmentView>,
    values: Map<Seq<char>, Seq<char>>,
    ai: Map<usize, String>,
    active: Option<nat>,
    year: int,
) -> Result<Seq<char>, FailureView>
    decreases fs.len(),
{
    if fs.len() == 0 {
        Ok(Seq::empty())
    } else {
        match fragments_outcome(fs.drop_last(), values, ai, active, year) {
            Err(e) => Err(e),
            Ok(prefix) => match fragment_outcome(fs.last(), values, ai, active, year) {
                Err(e) => Err(e),
                Ok(p) => Ok(prefix + p),
            },
        }
    }
}

/// Once a prefix of the fragments fails, the whole list fails the same way.
pub proof fn lemma_failure_sticks(
    fs: Seq<FragmentView>,
    k: int,
    values: Map<Seq<char>, Seq<char>>,
    ai: Map<usize, String>,
    active: Option<nat>,
    year: int,
)
    requires
        0 <= k <= fs.len(),
        fragments_outcome(fs.take(k), values, ai, active, year) is Err,
    ensures
        fragments_outcome(fs, values, ai, active, year) == fragments_outcome(fs.take(k), values, ai, active, year),
    decreases fs.len() - k,
{
    if k == fs.len() {
        assert(fs.take(k) =~= fs);
    } else {
        assert(fs.take(k + 1).drop_last() =~= fs.take(k));
        lemma_failure_sticks(fs, k + 1, values, ai, active, year);
    }
}

/// A `tera` context holding the values.
fn context_of(values: &ValueMap) -> (c: Context)
    ensures
        tera_context_entries(c) == values@,
{
    let names = values.names_in_order();
    let mut c = context_new();
    let mut i: usize = 0;
    while i < names.len()
        invariant
            i <= names@.len(),
            forall|k: Seq<char>| values@.contains_key(k) <==> crate::text::strs_view(names@).contains(k),
            forall|k: Seq<char>| #[trigger] tera_context_entries(c).contains_key(k) <==> exists|j: int|
                0 <= j < i && names@[j]@ == k,
            forall|k: Seq<char>| #[trigger] tera_context_entries(c).contains_key(k) ==> values@.contains_key(k)
                && tera_context_entries(c)[k] == values@[k],
        decreases names.len() - i,
    {
        assert(crate::text::strs_view(names@)[i as int] == names@[i as int]@);
        match values.get(names[i].as_str()) {
            Some(v) => {
                context_insert(&mut c, names[i].as_str(), v.as_str());
                assert forall|k: Seq<char>| #[trigger] tera_context_entries(c).contains_key(k) <==> exists|j: int|
                    0 <= j < i + 1 && names@[j]@ == k by {
                    if k == names@[i as int]@ {
                        assert(names@[i as int]@ == k);
                    }
                }
            },
            None => {},
        }
        i += 1;
    }
    assert forall|k: Seq<char>| values@.contains_key(k) implies #[trigger] tera_context_entries(c).contains_key(k) by {
        let j = choose|j: int| 0 <= j < crate::text::strs_view(names@).len() && crate::text::strs_view(names@)[j] == k;
        assert(names@[j]@ == k);
    }
    assert(tera_context_entries(c) =~= values@);
    c
}

/// The value `repo_name()` gives (see [`repo_name_for`]).
fn repo_name_value(values: &ValueMap) -> (r: String)
    ensures
        r@ == repo_name_for(values@),
{
    match values.get("repo_name") {
        Some(v) => {
            if !trim_string(v.as_str()).as_str().is_empty() {
                v.clone()
            } else {
                "project".to_owned()
            }
        },
        None => "project".to_owned(),
    }
}

/// Renders one expression with the values `values` in the year `year` (see
/// [`expression_outcome`]); an expression that is not safe goes to the engine
/// too, and what it renders to is stated only as far as
/// [`unsafe_outcome_allowed`] goes.
pub fn render_expression(expression: &str, values: &ValueMap, year: i32) -> (r: Result<String, RenderFailure>)
    ensures
        safe_expression(expression@) ==> outcome_view(r) == expression_outcome(expression@, values@, year as int),
        !safe_expression(expression@) ==> unsafe_outcome_allowed(expression@, outcome_view(r)),
{
    let mut template = "{{ ".to_owned();
    push_str(&mut template, expression);
    push_str(&mut template, " }}");
    match tera_check(template.as_str()) {
        Some(m) => {
            return Err(RenderFailure::InvalidExpression(expression.to_owned(), m));
        },
        None => {},
    }
    let context = context_of(values);
    let repo_name = repo_name_value(values);
    assert(template@ == expression_template(expression@));
    match tera_render(template.as_str(), &context, repo_name.as_str(), year) {
        Ok(s) => Ok(s),
        Err(m) => Err(RenderFailure::RenderFailed(expression.to_owned(), m)),
    }
}

/// Renders a fragment list (see [`fragments_outcome`]).
pub fn render_fragments(
    fragments: &Vec<TemplateFragment>,
    values: &ValueMap,
    ai_values: &BTreeMap<usize, String>,
    active: Option<usize>,
    year: i32,
) -> (r: Result<String, RenderFailure>)
    requires
        fragments@.len() < usize::MAX,
        active matches Some(a) ==> a < usize::MAX,
    ensures
        frags_safe(frags_view(fragments@)) ==> outcome_view(r) == fragments_outcome(
            frags_view(fragments@),
            values@,
            ai_values@,
            match active {
                Some(a) => Some(a as nat),
                None => None,
            },
            year as int,
        ),
{
    let ghost fs = frags_view(fragments@);
    let ghost act = match active {
        Some(a) => Some(a as nat),
        None => None::<nat>,
    };
    let mut out = String::new();
    let mut i: usize = 0;
    assert(fs.take(0) =~= Seq::<FragmentView>::empty());
    while i < fragments.len()
        invariant
            i <= fragments@.len(),
            fs == frags_view(fragments@),
            act == (match active {
                Some(a) => Some(a as nat),
                None => None::<nat>,
            }),
            active matches Some(a) ==> a < usize::MAX,
            frags_safe(fs) ==> fragments_outcome(fs.take(i as int), values@, ai_values@, act, year as int) == Ok::<Seq<char>, FailureView>(out@),
        decreases fragments.len() - i,
    {
        assert(fs.take(i + 1).drop_last() =~= fs.take(i as int));
        assert(fs.take(i + 1).last() == fragments@[i as int].view());
        assert(fs[i as int] == fragments@[i as int].view());
        match &fragments[i] {
            TemplateFragment::Literal(text) => {
                push_str(&mut out, text.as_str());
                assert(frags_safe(fs) ==> fragments_outcome(fs.take(i + 1), values@, ai_values@, act, year as int) == Ok::<Seq<char>, FailureView>(out@));
            },
            TemplateFragment::Text(placeholder) => {
                match render_expression(placeholder.name.as_str(), values, year) {
                    Ok(s) => push_str(&mut out, s.as_str()),
                    Err(e) => {
                        proof {
                            if frags_safe(fs) {
                                lemma_failure_sticks(fs, i + 1, values@, ai_values@, act, year as int);
                            }
                        }
                        return Err(e);
                    },
                }
            },
            TemplateFragment::Expression(expression) => {
                match render_expression(expression.as_str(), values, year) {
                    Ok(s) => push_str(&mut out, s.as_str()),
                    Err(e) => {
                        proof {
                            if frags_safe(fs) {
                                lemma_failure_sticks(fs, i + 1, values@, ai_values@, act, year as int);
                            }
                        }
                        return Err(e);
                    },
                }
            },
            TemplateFragment::Ai(placeholder) => {
                let is_active = match active {
                    Some(a) => a == placeholder.index,
                    None => false,
                };
                if is_active {
                    let s = ai_sentinel(placeholder.index);
                    push_str(&mut out, s.as_str());
                    assert(frags_safe(fs) ==> fragments_outcome(fs.take(i + 1), values@, ai_values@, act, year as int) == Ok::<Seq<char>, FailureView>(out@));
                } else {
                    match ai_values.get(&placeholder.index) {
                        Some(v) => {
                            assert(ai_values@.contains_key(placeholder.index) && ai_values@[placeholder.index] == *v);
                            push_str(&mut out, v.as_str());
                            assert(frags_safe(fs) ==> fragments_outcome(fs.take(i + 1), values@, ai_values@, act, year as int) == Ok::<Seq<char>, FailureView>(out@));
                        },
                        None => {
                            assert(!ai_values@.contains_key(placeholder.index));
                            match active {
                                Some(_) => {
                                    let ghost prev = out@;
                                    push_str(&mut out, "{{ai:");
                                    push_str(&mut out, placeholder.prompt.as_str());
                                    push_str(&mut out, "}}");
                                    assert(out@ =~= prev + ("{{ai:"@ + placeholder.prompt@ + "}}"@));
                                    assert(frags_safe(fs) ==> fragments_outcome(fs.take(i + 1), values@, ai_values@, act, year as int) == Ok::<Seq<char>, FailureView>(out@));
                                },
                                None => {
                                    proof {
                                        if frags_safe(fs) {
                                lemma_failure_sticks(fs, i + 1, values@, ai_values@, act, year as int);
                            }
                                    }
                                    return Err(RenderFailure::MissingAi(placeholder.index));
                                },
                            }
                        },
                    }
                }
            },
        }
        i += 1;
    }
    assert(fs.take(fragments.len() as int) =~= fs);
    Ok(out)
}

/// Why a template did not render: the failure and the template's source path.
pub struct RenderError {
    pub failure: RenderFailure,
    pub source_path: String,
}

impl RenderError {
    /// The message: `invalid template expression `e``, `failed to render `e``, or
    /// `missing AI replacement for fragment i in path`.
    pub fn message(&self) -> (m: String)
        ensures
            m@ == (match self.failure@ {
                FailureView::InvalidExpression(e, _) => "invalid template expression `"@ + e + "`"@,
                FailureView::RenderFailed(e, _) => "failed to render `"@ + e + "`"@,
                FailureView::MissingAi(i) => "missing AI replacement for fragment "@ + crate::text::decimal(i)
                    + " in "@ + self.source_path@,
            }),
    {
        match &self.failure {
            RenderFailure::InvalidExpression(e, _) => {
                let mut m = "invalid template expression `".to_owned();
                push_str(&mut m, e.as_str());
                push_str(&mut m, "`");
                m
            },
            RenderFailure::RenderFailed(e, _) => {
                let mut m = "failed to render `".to_owned();
                push_str(&mut m, e.as_str());
                push_str(&mut m, "`");
                m
            },
            RenderFailure::MissingAi(i) => {
                let mut m = "missing AI replacement for fragment ".to_owned();
                push_str(&mut m, crate::text::decimal_string(*i).as_str());
                push_str(&mut m, " in ");
                push_str(&mut m, self.source_path.as_str());
                m
            },
        }
    }
}

/// A render result with the source path on its error.
pub open spec fn with_path_view(r: Result<String, RenderError>) -> Result<Seq<char>, FailureView> {
    match r {
        Ok(s) => Ok(s@),
        Err(e) => Err(e.failure@),
    }
}

impl PreparedTemplate {
    /// The final file in the year `year`: every AI placeholder takes its value.
    pub fn render_final_in_year(&self, ai_values: &BTreeMap<usize, String>, year: i32) -> (r: Result<String, RenderError>)
        requires
            self.fragments@.len() < usize::MAX,
        ensures
            frags_safe(frags_view(self.fragments@)) ==> with_path_view(r) == fragments_outcome(frags_view(self.fragments@), self.values@, ai_values@, None, year as int),
            r matches Err(e) ==> e.source_path@ == self.source_path@,
    {
        match render_fragments(&self.fragments, &self.values, ai_values, None, year) {
            Ok(s) => Ok(s),
            Err(f) => Err(RenderError { failure: f, source_path: self.source_path.clone() }),
        }
    }

    /// The final file, with this year's date.
    pub fn render_final(&self, ai_values: &BTreeMap<usize, String>) -> (r: Result<String, RenderError>)
        requires
            self.fragments@.len() < usize::MAX,
        ensures
            frags_safe(frags_view(self.fragments@)) ==> exists|year: i32| with_path_view(r) == fragments_outcome(frags_view(self.fragments@), self.values@, ai_values@, None, year as int),
            r matches Err(e) ==> e.source_path@ == self.source_path@,
    {
        let year = current_year();
        self.render_final_in_year(ai_values, year)
    }

    /// The document an agent sees while writing the AI placeholder `active`, in
    /// the year `year`: that placeholder as its sentinel, the others as their
    /// values or as written.
    pub fn render_document_in_year(&self, active: usize, resolved_ai: &BTreeMap<usize, String>, year: i32) -> (r: Result<String, RenderError>)
        requires
            self.fragments@.len() < usize::MAX,
            active < usize::MAX,
        ensures
            frags_safe(frags_view(self.fragments@)) ==> with_path_view(r) == fragments_outcome(frags_view(self.fragments@), self.values@, resolved_ai@, Some(active as nat), year as int),
            r matches Err(e) ==> e.source_path@ == self.source_path@,
    {
        match render_fragments(&self.fragments, &self.values, resolved_ai, Some(active), year) {
            Ok(s) => Ok(s),
            Err(f) => Err(RenderError { failure: f, source_path: self.source_path.clone() }),
        }
    }

    /// The document an agent sees while writing the AI placeholder `active`.
    pub fn render_document(&self, active: usize, resolved_ai: &BTreeMap<usize, String>) -> (r: Result<String, RenderError>)
        requires
            self.fragments@.len() < usize::MAX,
            active < usize::MAX,
        ensures
            frags_safe(frags_view(self.fragments@)) ==> exists|year: i32| with_path_view(r) == fragments_outcome(frags_view(self.fragments@), self.values@, resolved_ai@, Some(active as nat), year as int),
            r matches Err(e) ==> e.source_path@ == self.source_path@,
    {
        let year = current_year();
        self.render_document_in_year(active, resolved_ai, year)
    }
}


/// A final render succeeds only where every AI placeholder of the template has a
/// value: rendering fails on the first one without.
pub proof fn law_final_render_needs_every_ai_value(
    fs: Seq<FragmentView>,
    values: Map<Seq<char>, Seq<char>>,
    ai: Map<usize, String>,
    year: int,
)
    requires
        fragments_outcome(fs, values, ai, None, year) is Ok,
    ensures
        forall|i: int| 0 <= i < fs.len() ==> (#[trigger] fs[i] matches FragmentView::Ai(index, _) ==> index <= usize::MAX
            && ai.contains_key(index as usize)),
    decreases fs.len(),
{
    if fs.len() > 0 {
        let init = fs.drop_last();
        law_final_render_needs_every_ai_value(init, values, ai, year);
        assert forall|i: int| 0 <= i < fs.len() implies (#[trigger] fs[i] matches FragmentView::Ai(index, _) ==> index
            <= usize::MAX && ai.contains_key(index as usize)) by {
            if i < fs.len() - 1 {
                assert(fs[i] == init[i]);
            }
        }
    }
}

/// Where the final file renders, the document for any active placeholder
/// renders too: only expressions can fail there.
pub proof fn law_document_renders_when_final_does(
    fs: Seq<FragmentView>,
    values: Map<Seq<char>, Seq<char>>,
    ai: Map<usize, String>,
    active: nat,
    year: int,
)
    requires
        fragments_outcome(fs, values, ai, None, year) is Ok,
    ensures
        fragments_outcome(fs, values, ai, Some(active), year) is Ok,
    decreases fs.len(),
{
    if fs.len() > 0 {
        law_document_renders_when_final_does(fs.drop_last(), values, ai, active, year);
    }
}

/// One replacement an agent wrote: the template it belongs to, the index of
/// the AI fragment, and the text.
pub struct GeneratedFragment {
    pub template_source_path: String,
    pub index: usize,
    pub replacement: String,
}

/// The AI values of the template at `path` from the generation results, in
/// order: each replacement for that template under its fragment index, a later
/// one for the same index taking its place.
pub open spec fn generated_values(results: Seq<Result<GeneratedFragment, String>>, path: Seq<char>) -> Map<usize, String>
    decreases results.len(),
{
    if results.len() == 0 {
        Map::empty()
    } else {
        let m = generated_values(results.drop_last(), path);
        match results.last() {
            Ok(g) => if g.template_source_path@ == path {
                m.insert(g.index, g.replacement)
            } else {
                m
            },
            Err(_) => m,
        }
    }
}

/// The message of the first failed result, in order.
pub open spec fn first_failure(results: Seq<Result<GeneratedFragment, String>>) -> Option<Seq<char>>
    decreases results.len(),
{
    if results.len() == 0 {
        None
    } else {
        match results[0] {
            Err(m) => Some(m@),
            Ok(_) => first_failure(results.drop_first()),
        }
    }
}

/// The AI values of the template at `source_path` from the results of
/// generating every AI fragment (see [`generated_values`]); where any result
/// failed, the first failure, as generating stops on it.
pub fn ai_values_for(results: &Vec<Result<GeneratedFragment, String>>, source_path: &str) -> (r: Result<
    BTreeMap<usize, String>,
    String,
>)
    ensures
        match first_failure(results@) {
            Some(m) => r matches Err(e) && e@ == m,
            None => r matches Ok(v) && v@ == generated_values(results@, source_path@),
        },
{
    let mut values: BTreeMap<usize, String> = BTreeMap::new();
    let mut i: usize = 0;
    assert(results@.skip(0) =~= results@);
    while i < results.len()
        invariant
            i <= results@.len(),
            first_failure(results@) == first_failure(results@.skip(i as int)),
            values@ == generated_values(results@.take(i as int), source_path@),
        decreases results.len() - i,
    {
        assert(results@.skip(i as int)[0] == results@[i as int]);
        assert(results@.skip(i as int).drop_first() =~= results@.skip(i + 1));
        assert(results@.take(i + 1).drop_last() =~= results@.take(i as int));
        assert(results@.take(i + 1).last() == results@[i as int]);
        match &results[i] {
            Err(m) => {
                return Err(m.clone());
            },
            Ok(g) => {
                if crate::text::str_eq(g.template_source_path.as_str(), source_path) {
                    values.insert(g.index, g.replacement.clone());
                }
            },
        }
        i += 1;
    }
    assert(results@.take(results@.len() as int) =~= results@);
    assert(results@.skip(results@.len() as int) =~= Seq::<Result<GeneratedFragment, String>>::empty());
    Ok(values)
}

} // verus!

//! What an agent is asked when it writes one AI fragment: the request with the
//! document around the fragment, and the prompt text built from it.
use crate::bundle::PreparedTemplate;
use crate::context::{ContextBundle, ContextSnippet};
use crate::readme::{findings_view, finding_message, ReadmeVerificationReport};
use crate::render::{fragments_outcome, with_path_view, RenderError};
use crate::templates::{ai_sentinel, ai_sentinel_spec, frags_view, AiFragment, ReadmeFragmentRole};
use crate::text::{contains_seq, decimal, decimal_string, has_prefix, join, join_strings, push_str, str_contains, str_eq, str_starts_with, strs_view, trim, trim_string};
use crate::value_map::ValueMap;
use std::collections::BTreeMap;
use vstd::prelude::*;

verus! {

/// Everything an agent needs to write one fragment.
pub struct AiFragmentRequest {
    pub target_path: String,
    pub target_file: String,
    pub template_source_path: String,
    pub values: ValueMap,
    pub fragment_index: usize,
    pub display_label: String,
    pub fragment_prompt: String,
    pub active_sentinel: String,
    pub document: String,
    pub context: ContextBundle,
    pub readme_role: Option<ReadmeFragmentRole>,
    pub repair_notes: Vec<String>,
}

fn copy_strings(v: &Vec<String>) -> (r: Vec<String>)
    ensures
        strs_view(r@) == strs_view(v@),
{
    let mut r: Vec<String> = Vec::new();
    let mut i: usize = 0;
    while i < v.len()
        invariant
            i <= v@.len(),
            r@.len() == i,
            forall|j: int| 0 <= j < i ==> (#[trigger] r@[j])@ == v@[j]@,
        decreases v.len() - i,
    {
        r.push(v[i].clone());
        i += 1;
    }
    assert(strs_view(r@) =~= strs_view(v@));
    r
}

impl PreparedTemplate {
    /// The request for the AI fragment `fragment` in the year `year`: the
    /// document shows that fragment as its sentinel and the fragments in
    /// `resolved_ai` as written.
    pub fn build_ai_fragment_request_in_year(
        &self,
        cwd: &str,
        context: ContextBundle,
        fragment: &AiFragment,
        resolved_ai: &BTreeMap<usize, String>,
        repair_notes: &Vec<String>,
        year: i32,
    ) -> (r: Result<AiFragmentRequest, RenderError>)
        requires
            self.fragments@.len() < usize::MAX,
            fragment.placeholder.index < usize::MAX,
        ensures
            match r {
                Ok(q) => {
                    &&& q.target_path@ == crate::paths::camino_join(cwd@, self.output_name@)
                    &&& q.target_file@ == self.output_name@
                    &&& q.template_source_path@ == self.source_path@
                    &&& q.values@ == self.values@
                    &&& q.fragment_index == fragment.placeholder.index
                    &&& q.display_label@ == fragment.label@
                    &&& q.fragment_prompt@ == fragment.placeholder.prompt@
                    &&& q.active_sentinel@ == ai_sentinel_spec(fragment.placeholder.index as nat)
                    &&& crate::render::frags_safe(frags_view(self.fragments@)) ==> Ok::<Seq<char>, crate::render::FailureView>(q.document@) == fragments_outcome(
                        frags_view(self.fragments@),
                        self.values@,
                        resolved_ai@,
                        Some(fragment.placeholder.index as nat),
                        year as int,
                    )
                    &&& q.context == context
                    &&& q.readme_role == fragment.readme_role
                    &&& strs_view(q.repair_notes@) == strs_view(repair_notes@)
                },
                Err(e) => crate::render::frags_safe(frags_view(self.fragments@)) ==> with_path_view(Err(e)) == fragments_outcome(
                    frags_view(self.fragments@),
                    self.values@,
                    resolved_ai@,
                    Some(fragment.placeholder.index as nat),
                    year as int,
                ),
            },
    {
        let document = match self.render_document_in_year(fragment.placeholder.index, resolved_ai, year) {
            Ok(d) => d,
            Err(e) => {
                return Err(e);
            },
        };
        Ok(AiFragmentRequest {
            target_path: self.target_path(cwd),
            target_file: self.output_name.clone(),
            template_source_path: self.source_path.clone(),
            values: self.values.copy(),
            fragment_index: fragment.placeholder.index,
            display_label: fragment.label.clone(),
            fragment_prompt: fragment.placeholder.prompt.clone(),
            active_sentinel: ai_sentinel(fragment.placeholder.index),
            document,
            context,
            readme_role: fragment.readme_role,
            repair_notes: copy_strings(repair_notes),
        })
    }
}

/// The rules an agent's fragment must follow, by README role.
pub open spec fn contract_lines(role: Option<ReadmeFragmentRole>) -> Seq<Seq<char>> {
    match role {
        Some(ReadmeFragmentRole::Badges) => seq![
            "- Keep the README house style fixed and factual."@,
            "- Return exactly one markdown line or an empty string."@,
            "- Only CI and license badges are allowed."@,
            "- Use only verified CI/license facts from the repo brief and snippets."@,
        ],
        Some(ReadmeFragmentRole::Overview) => seq![
            "- Keep the README house style fixed and factual."@,
            "- Write 2 or 3 sentences only."@,
            "- Make the reader curious about the project, explain why it matters, and end with what they can do with it."@,
            "- Avoid internal crates, package layout, or implementation breakdowns."@,
            "- Use only commands, files, and claims supported by the repo brief and snippets."@,
        ],
        Some(ReadmeFragmentRole::QuickStart) => seq![
            "- Return only markdown bullet lines."@,
            "- Write 2 or 3 bullets only."@,
            "- Show the fastest verified install, bootstrap, or run path from the repo brief."@,
            "- Do not invent prerequisites, scripts, or file paths."@,
        ],
        Some(ReadmeFragmentRole::Usage) => seq![
            "- Return only markdown bullet lines."@,
            "- Write 2 or 3 bullets only."@,
            "- Focus on what someone can do with the project once it is running."@,
            "- Prefer the main user or developer workflow and the most relevant verified commands."@,
            "- Do not describe internal crates, packages, or repo layout."@,
            "- Do not invent commands, packages, or links."@,
        ],
        Some(ReadmeFragmentRole::Tests) => seq![
            "- Return only markdown bullet lines."@,
            "- Write 1 to 3 bullets only."@,
            "- Use only the verified test or check command from the repo brief."@,
            "- If no verified test command exists, return exactly one bullet that says no verified test command was found."@,
        ],
        None => seq![
            "- Return only replacement markdown for the active fragment."@,
            "- Do not return headings unless the template prompt explicitly asks for them."@,
            "- Do not return code fences, frontmatter, or a full-document rewrite."@,
            "- Use only facts supported by the repo brief and context snippets."@,
        ],
    }
}

/// The contract of a fragment: its rules, one per line.
pub fn render_fragment_contract(role: Option<ReadmeFragmentRole>) -> (r: String)
    ensures
        r@ == join(contract_lines(role), "\n"@),
{
    let lines: Vec<String> = match role {
        Some(ReadmeFragmentRole::Badges) => vec![
            "- Keep the README house style fixed and factual.".to_owned(),
            "- Return exactly one markdown line or an empty string.".to_owned(),
            "- Only CI and license badges are allowed.".to_owned(),
            "- Use only verified CI/license facts from the repo brief and snippets.".to_owned(),
        ],
        Some(ReadmeFragmentRole::Overview) => vec![
            "- Keep the README house style fixed and factual.".to_owned(),
            "- Write 2 or 3 sentences only.".to_owned(),
            "- Make the reader curious about the project, explain why it matters, and end with what they can do with it.".to_owned(),
            "- Avoid internal crates, package layout, or implementation breakdowns.".to_owned(),
            "- Use only commands, files, and claims supported by the repo brief and snippets.".to_owned(),
        ],
        Some(ReadmeFragmentRole::QuickStart) => vec![
            "- Return only markdown bullet lines.".to_owned(),
            "- Write 2 or 3 bullets only.".to_owned(),
            "- Show the fastest verified install, bootstrap, or run path from the repo brief.".to_owned(),
            "- Do not invent prerequisites, scripts, or file paths.".to_owned(),
        ],
        Some(ReadmeFragmentRole::Usage) => vec![
            "- Return only markdown bullet lines.".to_owned(),
            "- Write 2 or 3 bullets only.".to_owned(),
            "- Focus on what someone can do with the project once it is running.".to_owned(),
            "- Prefer the main user or developer workflow and the most relevant verified commands.".to_owned(),
            "- Do not describe internal crates, packages, or repo layout.".to_owned(),
            "- Do not invent commands, packages, or links.".to_owned(),
        ],
        Some(ReadmeFragmentRole::Tests) => vec![
            "- Return only markdown bullet lines.".to_owned(),
            "- Write 1 to 3 bullets only.".to_owned(),
            "- Use only the verified test or check command from the repo brief.".to_owned(),
            "- If no verified test command exists, return exactly one bullet that says no verified test command was found.".to_owned(),
        ],
        None => vec![
            "- Return only replacement markdown for the active fragment.".to_owned(),
            "- Do not return headings unless the template prompt explicitly asks for them.".to_owned(),
            "- Do not return code fences, frontmatter, or a full-document rewrite.".to_owned(),
            "- Use only facts supported by the repo brief and context snippets.".to_owned(),
        ],
    };
    assert(strs_view(lines@) =~= contract_lines(role));
    join_strings(&lines, "\n")
}

/// Example answers for a role, where it has them.
pub open spec fn example_blocks(role: Option<ReadmeFragmentRole>) -> Seq<Seq<char>> {
    match role {
        Some(ReadmeFragmentRole::QuickStart) => seq![
            "<example>\n- Install dependencies with pnpm install.\n- Start the project with pnpm dev.\n</example>"@,
        ],
        Some(ReadmeFragmentRole::Usage) => seq![
            "<example>\n- Run nanite init to generate the next project file from the current repository.\n- Use nanite repo clone and jumpto to move quickly between repositories in the workspace.\n</example>"@,
        ],
        Some(ReadmeFragmentRole::Tests) => seq![
            "<example>\n- Run cargo test -q from the repository root.\n</example>"@,
            "<example>\n- No verified test command was found.\n</example>"@,
        ],
        _ => Seq::empty(),
    }
}

/// The examples of a role joined by newlines, or `None` where it has none.
pub fn render_fragment_examples(role: Option<ReadmeFragmentRole>) -> (r: Option<String>)
    ensures
        match r {
            Some(s) => example_blocks(role).len() > 0 && s@ == join(example_blocks(role), "\n"@),
            None => example_blocks(role).len() == 0,
        },
{
    let blocks: Vec<String> = match role {
        Some(ReadmeFragmentRole::QuickStart) => vec![
            "<example>\n- Install dependencies with pnpm install.\n- Start the project with pnpm dev.\n</example>".to_owned(),
        ],
        Some(ReadmeFragmentRole::Usage) => vec![
            "<example>\n- Run nanite init to generate the next project file from the current repository.\n- Use nanite repo clone and jumpto to move quickly between repositories in the workspace.\n</example>".to_owned(),
        ],
        Some(ReadmeFragmentRole::Tests) => vec![
            "<example>\n- Run cargo test -q from the repository root.\n</example>".to_owned(),
            "<example>\n- No verified test command was found.\n</example>".to_owned(),
        ],
        _ => Vec::new(),
    };
    assert(strs_view(blocks@) =~= example_blocks(role));
    if blocks.len() == 0 {
        None
    } else {
        Some(join_strings(&blocks, "\n"))
    }
}

/// The values listed for the agent: `- name: value` in name order (a blank
/// value as `(blank)`), or `(none)`.
pub open spec fn values_text(names: Seq<Seq<char>>, values: Map<Seq<char>, Seq<char>>) -> Seq<char> {
    if names.len() == 0 {
        "(none)"@
    } else {
        join(names.map_values(|n: Seq<char>| "- "@ + n + ": "@ + crate::context::summary_value(values[n])), "\n"@)
    }
}

/// The values listed for the agent (see [`values_text`]).
pub fn render_values(values: &ValueMap) -> (r: String)
    ensures
        r@ == values_text(values.names(), values@),
{
    let names = values.names_in_order();
    if names.len() == 0 {
        return "(none)".to_owned();
    }
    let mut lines: Vec<String> = Vec::new();
    let mut i: usize = 0;
    while i < names.len()
        invariant
            i <= names@.len(),
            strs_view(names@) == values.names(),
            forall|k: Seq<char>| values@.contains_key(k) <==> strs_view(names@).contains(k),
            lines@.len() == i,
            forall|j: int| 0 <= j < i ==> (#[trigger] lines@[j])@ == "- "@ + names@[j]@ + ": "@ + crate::context::summary_value(values@[names@[j]@]),
        decreases names.len() - i,
    {
        assert(strs_view(names@)[i as int] == names@[i as int]@);
        let v = match values.get(names[i].as_str()) {
            Some(v) => crate::context::render_summary_value(v.as_str()),
            None => String::new(),
        };
        let mut line = "- ".to_owned();
        push_str(&mut line, names[i].as_str());
        push_str(&mut line, ": ");
        push_str(&mut line, v.as_str());
        lines.push(line);
        i += 1;
    }
    assert(strs_view(lines@) =~= values.names().map_values(|n: Seq<char>| "- "@ + n + ": "@ + crate::context::summary_value(values@[n])));
    join_strings(&lines, "\n")
}

/// The repository brief: the summary lines, or `(none)`.
pub fn render_context_summary(context: &ContextBundle) -> (r: String)
    ensures
        r@ == (if context.summary_lines@.len() == 0 {
            "(none)"@
        } else {
            join(strs_view(context.summary_lines@), "\n"@)
        }),
{
    if context.summary_lines.len() == 0 {
        "(none)".to_owned()
    } else {
        join_strings(&context.summary_lines, "\n")
    }
}

/// One snippet in the prompt.
pub open spec fn snippet_text(s: ContextSnippet) -> Seq<char> {
    "<snippet path=\""@ + s.path@ + "\">\n"@ + s.content@ + "\n</snippet>"@
}

/// The context files: each snippet in its tag, or `(none)`.
pub fn render_context_snippets(context: &ContextBundle) -> (r: String)
    ensures
        r@ == (if context.snippets@.len() == 0 {
            "(none)"@
        } else {
            join(context.snippets@.map_values(|s: ContextSnippet| snippet_text(s)), "\n"@)
        }),
{
    if context.snippets.len() == 0 {
        return "(none)".to_owned();
    }
    let mut parts: Vec<String> = Vec::new();
    let mut i: usize = 0;
    while i < context.snippets.len()
        invariant
            i <= context.snippets@.len(),
            parts@.len() == i,
            forall|j: int| 0 <= j < i ==> (#[trigger] parts@[j])@ == snippet_text(context.snippets@[j]),
        decreases context.snippets.len() - i,
    {
        let s = &context.snippets[i];
        let mut t = "<snippet path=\"".to_owned();
        push_str(&mut t, s.path.as_str());
        push_str(&mut t, "\">\n");
        push_str(&mut t, s.content.as_str());
        push_str(&mut t, "\n</snippet>");
        parts.push(t);
        i += 1;
    }
    assert(strs_view(parts@) =~= context.snippets@.map_values(|s: ContextSnippet| snippet_text(s)));
    join_strings(&parts, "\n")
}

/// The opening of a prompt: the task, the fragment and its contract.
pub open spec fn head_text(q: AiFragmentRequest) -> Seq<char> {
    "<task>\nReplace one AI template fragment in `"@ + q.target_file@
        + "`.\nReturn only the markdown that should replace the active placeholder.\nDo not return explanations, code fences, frontmatter, or a full-document rewrite.\n</task>\n\n<fragment>\n- Index: "@
        + decimal(q.fragment_index as nat + 1) + "\n- Label: "@ + q.display_label@ + "\n- Active sentinel: `"@
        + q.active_sentinel@ + "`\n- Prompt: "@ + q.fragment_prompt@ + "\n</fragment>\n\n<contract>\n"@
        + join(contract_lines(q.readme_role), "\n"@) + "\n</contract>\n"@
}

/// The repair notes of a prompt, where there are some.
pub open spec fn repair_text(notes: Seq<Seq<char>>) -> Seq<char> {
    if notes.len() == 0 {
        Seq::empty()
    } else {
        "\n<repair>\n"@ + join(notes.map_values(|n: Seq<char>| "- "@ + n), "\n"@) + "\n</repair>\n"@
    }
}

/// The values, the repository brief, the context files and the document.
pub open spec fn body_text(q: AiFragmentRequest) -> Seq<char> {
    let summary = if q.context.summary_lines@.len() == 0 {
        "(none)"@
    } else {
        join(strs_view(q.context.summary_lines@), "\n"@)
    };
    let snippets = if q.context.snippets@.len() == 0 {
        "(none)"@
    } else {
        join(q.context.snippets@.map_values(|s: ContextSnippet| snippet_text(s)), "\n"@)
    };
    "\n<values>\n"@ + values_text(q.values.names(), q.values@) + "\n</values>\n\n<repo_brief>\n"@ + summary
        + "\n</repo_brief>\n\n<context_files>\n"@ + snippets + "\n</context_files>\n\n<document>\n```md\n"@ + q.document@
        + "\n```\n</document>\n"@
}

/// The examples of a prompt, where the role has some.
pub open spec fn examples_text(role: Option<ReadmeFragmentRole>) -> Seq<char> {
    if example_blocks(role).len() == 0 {
        Seq::empty()
    } else {
        "\n<examples>\n"@ + join(example_blocks(role), "\n"@) + "\n</examples>\n"@
    }
}

/// The prompt an agent gets for one fragment: the task, the fragment, its
/// contract, repair notes where there are some, the values, the repository
/// brief, the context files, the document, and examples where the role has some.
pub open spec fn prompt_text(q: AiFragmentRequest) -> Seq<char> {
    head_text(q) + repair_text(strs_view(q.repair_notes@)) + body_text(q) + examples_text(q.readme_role)
}

fn prompt_head(request: &AiFragmentRequest) -> (r: String)
    requires
        request.fragment_index < usize::MAX,
    ensures
        r@ == head_text(*request),
{
    let mut p = "<task>\nReplace one AI template fragment in `".to_owned();
    push_str(&mut p, request.target_file.as_str());
    push_str(&mut p, "`.\nReturn only the markdown that should replace the active placeholder.\nDo not return explanations, code fences, frontmatter, or a full-document rewrite.\n</task>\n\n<fragment>\n- Index: ");
    push_str(&mut p, decimal_string(request.fragment_index + 1).as_str());
    push_str(&mut p, "\n- Label: ");
    push_str(&mut p, request.display_label.as_str());
    push_str(&mut p, "\n- Active sentinel: `");
    push_str(&mut p, request.active_sentinel.as_str());
    push_str(&mut p, "`\n- Prompt: ");
    push_str(&mut p, request.fragment_prompt.as_str());
    push_str(&mut p, "\n</fragment>\n\n<contract>\n");
    push_str(&mut p, render_fragment_contract(request.readme_role).as_str());
    push_str(&mut p, "\n</contract>\n");
    p
}

fn prompt_repair(notes: &Vec<String>) -> (r: String)
    ensures
        r@ == repair_text(strs_view(notes@)),
{
    if notes.len() == 0 {
        return String::new();
    }
    let mut lines: Vec<String> = Vec::new();
    let mut i: usize = 0;
    while i < notes.len()
        invariant
            i <= notes@.len(),
            lines@.len() == i,
            forall|j: int| 0 <= j < i ==> (#[trigger] lines@[j])@ == "- "@ + notes@[j]@,
        decreases notes.len() - i,
    {
        let mut n = "- ".to_owned();
        push_str(&mut n, notes[i].as_str());
        lines.push(n);
        i += 1;
    }
    assert(strs_view(lines@) =~= strs_view(notes@).map_values(|n: Seq<char>| "- "@ + n));
    let mut p = "\n<repair>\n".to_owned();
    push_str(&mut p, join_strings(&lines, "\n").as_str());
    push_str(&mut p, "\n</repair>\n");
    p
}

fn prompt_body(request: &AiFragmentRequest) -> (r: String)
    ensures
        r@ == body_text(*request),
{
    let mut p = "\n<values>\n".to_owned();
    push_str(&mut p, render_values(&request.values).as_str());
    push_str(&mut p, "\n</values>\n\n<repo_brief>\n");
    push_str(&mut p, render_context_summary(&request.context).as_str());
    push_str(&mut p, "\n</repo_brief>\n\n<context_files>\n");
    push_str(&mut p, render_context_snippets(&request.context).as_str());
    push_str(&mut p, "\n</context_files>\n\n<document>\n```md\n");
    push_str(&mut p, request.document.as_str());
    push_str(&mut p, "\n```\n</document>\n");
    p
}

fn prompt_examples(role: Option<ReadmeFragmentRole>) -> (r: String)
    ensures
        r@ == examples_text(role),
{
    match render_fragment_examples(role) {
        Some(examples) => {
            let mut p = "\n<examples>\n".to_owned();
            push_str(&mut p, examples.as_str());
            push_str(&mut p, "\n</examples>\n");
            p
        },
        None => String::new(),
    }
}

/// Builds the prompt for one fragment (see [`prompt_text`]).
pub fn build_ai_fragment_prompt(request: &AiFragmentRequest) -> (r: String)
    requires
        request.fragment_index < usize::MAX,
    ensures
        r@ == prompt_text(*request),
{
    let mut p = prompt_head(request);
    push_str(&mut p, prompt_repair(&request.repair_notes).as_str());
    push_str(&mut p, prompt_body(request).as_str());
    push_str(&mut p, prompt_examples(request.readme_role).as_str());
    p
}

/// Why an agent's answer was refused.
pub open spec fn output_check(output: Seq<char>) -> Result<Seq<char>, Seq<char>> {
    let t = trim(output);
    if contains_seq(t, "```"@) {
        Err("agent output must not contain code fences"@)
    } else if has_prefix(t, "---\n"@) || t == "---"@ {
        Err("agent output must not contain frontmatter"@)
    } else {
        Ok(t)
    }
}

/// An agent's answer trimmed; refused where it holds a code fence or starts
/// with frontmatter.
pub fn validate_ai_fragment_output(output: &str) -> (r: Result<String, String>)
    ensures
        match r {
            Ok(s) => output_check(output@) == Ok::<Seq<char>, Seq<char>>(s@),
            Err(m) => output_check(output@) == Err::<Seq<char>, Seq<char>>(m@),
        },
{
    let t = trim_string(output);
    if str_contains(t.as_str(), "```") {
        return Err("agent output must not contain code fences".to_owned());
    }
    if str_starts_with(t.as_str(), "---\n") || str_eq(t.as_str(), "---") {
        return Err("agent output must not contain frontmatter".to_owned());
    }
    Ok(t)
}

/// The verifier's messages on one line, separated by `; `.
pub fn format_readme_verifier_messages(report: &ReadmeVerificationReport) -> (r: String)
    ensures
        r@ == join(findings_view(report.findings@).map_values(|f: crate::readme::FindingView| finding_message(f)), "; "@),
{
    let messages = report.render_messages();
    join_strings(&messages, "; ")
}

/// `n fragment(s) across m file(s)`, with the plural where the count is not 1.
pub open spec fn fragment_count_text(fragments: nat, files: nat) -> Seq<char> {
    decimal(fragments) + " fragment"@ + (if fragments == 1 { Seq::empty() } else { "s"@ }) + " across "@ + decimal(files)
        + " file"@ + (if files == 1 { Seq::empty() } else { "s"@ })
}

/// The detail of the generate step (see [`fragment_count_text`]).
pub fn fragment_count_detail(fragments: usize, files: usize) -> (r: String)
    ensures
        r@ == fragment_count_text(fragments as nat, files as nat),
{
    let mut r = decimal_string(fragments);
    push_str(&mut r, " fragment");
    if fragments != 1 {
        push_str(&mut r, "s");
    } else {
        assert(r@ + Seq::<char>::empty() =~= r@);
    }
    push_str(&mut r, " across ");
    push_str(&mut r, decimal_string(files).as_str());
    push_str(&mut r, " file");
    if files != 1 {
        push_str(&mut r, "s");
    } else {
        assert(r@ + Seq::<char>::empty() =~= r@);
    }
    r
}


/// The fragment a map keyed by index keeps for `index`: the last with it.
pub open spec fn fragment_for(fs: Seq<AiFragment>, index: nat) -> Option<AiFragment>
    decreases fs.len(),
{
    if fs.len() == 0 {
        None
    } else if fs.last().placeholder.index as nat == index {
        Some(fs.last())
    } else {
        fragment_for(fs.drop_last(), index)
    }
}

/// The messages of the findings about fragment `index`, in order.
pub open spec fn notes_for(fs: Seq<crate::readme::FindingView>, index: nat) -> Seq<Seq<char>>
    decreases fs.len(),
{
    if fs.len() == 0 {
        Seq::empty()
    } else {
        let rest = notes_for(fs.drop_last(), index);
        if fs.last().index == Some(index) {
            rest.push(fs.last().message)
        } else {
            rest
        }
    }
}

/// The fragment kept for an index has that index.
pub proof fn lemma_fragment_for_index(fs: Seq<AiFragment>, index: nat)
    ensures
        fragment_for(fs, index) matches Some(g) ==> g.placeholder.index as nat == index,
    decreases fs.len(),
{
    if fs.len() > 0 {
        lemma_fragment_for_index(fs.drop_last(), index);
    }
}

/// A fragment to rewrite and the findings that call for it.
pub struct RepairJob {
    pub fragment: AiFragment,
    pub notes: Vec<String>,
}

fn copy_ai_fragment(f: &AiFragment) -> (r: AiFragment)
    ensures
        r@ == f@,
{
    AiFragment {
        placeholder: crate::templates::AiPlaceholder { index: f.placeholder.index, prompt: f.placeholder.prompt.clone() },
        label: f.label.clone(),
        readme_role: f.readme_role,
    }
}

fn find_fragment(fragments: &Vec<AiFragment>, index: usize) -> (r: Option<AiFragment>)
    ensures
        match r {
            Some(f) => fragment_for(fragments@, index as nat) matches Some(g) && f@ == g@,
            None => fragment_for(fragments@, index as nat) is None,
        },
{
    let mut i: usize = fragments.len();
    assert(fragments@.take(i as int) =~= fragments@);
    while i > 0
        invariant
            i <= fragments@.len(),
            fragment_for(fragments@, index as nat) == fragment_for(fragments@.take(i as int), index as nat),
        decreases i,
    {
        assert(fragments@.take(i as int).last() == fragments@[i - 1]);
        assert(fragments@.take(i as int).drop_last() =~= fragments@.take(i - 1));
        if fragments[i - 1].placeholder.index == index {
            return Some(copy_ai_fragment(&fragments[i - 1]));
        }
        i -= 1;
    }
    assert(fragments@.take(0) =~= Seq::<AiFragment>::empty());
    None
}

fn notes_of(report: &ReadmeVerificationReport, index: usize) -> (r: Vec<String>)
    ensures
        strs_view(r@) == notes_for(findings_view(report.findings@), index as nat),
{
    let ghost fs = findings_view(report.findings@);
    let mut r: Vec<String> = Vec::new();
    let mut i: usize = 0;
    assert(fs.take(0) =~= Seq::<crate::readme::FindingView>::empty());
    assert(strs_view(r@) =~= Seq::<Seq<char>>::empty());
    while i < report.findings.len()
        invariant
            i <= report.findings@.len(),
            fs == findings_view(report.findings@),
            strs_view(r@) == notes_for(fs.take(i as int), index as nat),
        decreases report.findings.len() - i,
    {
        assert(fs.take(i + 1).drop_last() =~= fs.take(i as int));
        assert(fs.take(i + 1).last() == report.findings@[i as int]@);
        if report.findings[i].fragment_index == Some(index) {
            let ghost before = strs_view(r@);
            r.push(report.findings[i].message.clone());
            assert(strs_view(r@) =~= before.push(report.findings@[i as int].message@));
        }
        i += 1;
    }
    assert(fs.take(report.findings@.len() as int) =~= fs);
    r
}

/// The repair jobs of a README: one per repairable fragment index, in ascending
/// order, with that fragment and the messages about it. An index with no
/// fragment is an error: `missing README fragment metadata for repair index i`.
pub fn build_repair_jobs(fragments: &Vec<AiFragment>, report: &ReadmeVerificationReport) -> (r: Result<Vec<RepairJob>, String>)
    ensures
        match r {
            Ok(jobs) => {
                &&& forall|i: int, j: int| 0 <= i < j < jobs@.len() ==> (#[trigger] jobs@[i]).fragment.placeholder.index
                    < (#[trigger] jobs@[j]).fragment.placeholder.index
                &&& forall|x: usize| crate::readme::repairable_index(findings_view(report.findings@), x as nat) <==> exists|i: int|
                    0 <= i < jobs@.len() && (#[trigger] jobs@[i]).fragment.placeholder.index == x
                &&& forall|i: int| 0 <= i < jobs@.len() ==> (fragment_for(fragments@, (#[trigger] jobs@[i]).fragment.placeholder.index as nat) matches Some(g)
                    && jobs@[i].fragment@ == g@ && strs_view(jobs@[i].notes@) == notes_for(
                    findings_view(report.findings@),
                    jobs@[i].fragment.placeholder.index as nat,
                ))
            },
            Err(m) => exists|x: usize| crate::readme::repairable_index(findings_view(report.findings@), x as nat)
                && fragment_for(fragments@, x as nat) is None
                && m@ == "missing README fragment metadata for repair index "@ + decimal(x as nat),
        },
{
    let indexes = report.repairable_fragment_indexes();
    let mut jobs: Vec<RepairJob> = Vec::new();
    let mut i: usize = 0;
    while i < indexes.len()
        invariant
            i <= indexes@.len(),
            jobs@.len() == i,
            forall|a: int, b: int| 0 <= a < b < indexes@.len() ==> indexes@[a] < indexes@[b],
            forall|x: usize| indexes@.contains(x) <==> crate::readme::repairable_index(findings_view(report.findings@), x as nat),
            forall|k: int| 0 <= k < i ==> (#[trigger] jobs@[k]).fragment.placeholder.index == indexes@[k],
            forall|k: int| 0 <= k < i ==> (fragment_for(fragments@, indexes@[k] as nat) matches Some(g)
                && (#[trigger] jobs@[k]).fragment@ == g@ && strs_view(jobs@[k].notes@) == notes_for(findings_view(report.findings@), indexes@[k] as nat)),
        decreases indexes.len() - i,
    {
        let x = indexes[i];
        match find_fragment(fragments, x) {
            Some(f) => {
                proof {
                    lemma_fragment_for_index(fragments@, x as nat);
                }
                let notes = notes_of(report, x);
                jobs.push(RepairJob { fragment: f, notes });
            },
            None => {
                assert(indexes@.contains(x));
                let mut m = "missing README fragment metadata for repair index ".to_owned();
                push_str(&mut m, decimal_string(x).as_str());
                return Err(m);
            },
        }
        i += 1;
    }
    proof {
        assert forall|x: usize| crate::readme::repairable_index(findings_view(report.findings@), x as nat) <==> exists|k: int|
            0 <= k < jobs@.len() && (#[trigger] jobs@[k]).fragment.placeholder.index == x by {
            if indexes@.contains(x) {
                let k = choose|k: int| 0 <= k < indexes@.len() && indexes@[k] == x;
                assert(jobs@[k].fragment.placeholder.index == x);
            }
        }
    }
    Ok(jobs)
}

} // verus!

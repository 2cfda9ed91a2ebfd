//! How an agent is run to write a fragment: the command and its arguments,
//! and what is reported when it fails.
use crate::text::{lines, lines_of, push_str, strs_view, trim, trim_string};
use vstd::prelude::*;

verus! {

/// The arguments of a non-interactive Codex run: a small model, working in
/// `workdir` outside any git repository, read-only, leaving no session, its
/// last message written to `output_file`.
pub open spec fn codex_args(workdir: Seq<char>, output_file: Seq<char>, prompt: Seq<char>) -> Seq<Seq<char>> {
    seq![
        "exec"@, "--model"@, "gpt-5.4-mini"@, "--cd"@, workdir, "--skip-git-repo-check"@, "--sandbox"@,
        "read-only"@, "--ephemeral"@, "-o"@, output_file, prompt,
    ]
}

/// The arguments of a non-interactive run of the text-printing agent: plain
/// text printed, no session kept, no tools.
pub open spec fn claude_args(prompt: Seq<char>) -> Seq<Seq<char>> {
    seq!["-p"@, "--no-session-persistence"@, "--output-format"@, "text"@, "--tools"@, ""@, prompt]
}

/// The arguments of a Codex run (see [`codex_args`]).
pub fn codex_exec_args(workdir: &str, output_file: &str, prompt: &str) -> (r: Vec<String>)
    ensures
        strs_view(r@) == codex_args(workdir@, output_file@, prompt@),
{
    let r: Vec<String> = vec![
        "exec".to_owned(), "--model".to_owned(), "gpt-5.4-mini".to_owned(), "--cd".to_owned(), workdir.to_owned(),
        "--skip-git-repo-check".to_owned(), "--sandbox".to_owned(), "read-only".to_owned(),
        "--ephemeral".to_owned(), "-o".to_owned(), output_file.to_owned(), prompt.to_owned(),
    ];
    assert(strs_view(r@) =~= codex_args(workdir@, output_file@, prompt@));
    r
}

/// The arguments of a run of the text-printing agent (see [`claude_args`]).
pub fn claude_print_args(prompt: &str) -> (r: Vec<String>)
    ensures
        strs_view(r@) == claude_args(prompt@),
{
    let r: Vec<String> = vec![
        "-p".to_owned(), "--no-session-persistence".to_owned(), "--output-format".to_owned(), "text".to_owned(),
        "--tools".to_owned(), "".to_owned(), prompt.to_owned(),
    ];
    assert(strs_view(r@) =~= claude_args(prompt@));
    r
}

/// The last of `ls` that is not blank, trimmed.
pub open spec fn last_non_blank(ls: Seq<Seq<char>>) -> Option<Seq<char>>
    decreases ls.len(),
{
    if ls.len() == 0 {
        None
    } else if trim(ls.last()).len() > 0 {
        Some(trim(ls.last()))
    } else {
        last_non_blank(ls.drop_last())
    }
}

/// The last line an agent wrote that is not blank, trimmed: its error output
/// is read before its standard output.
pub open spec fn last_output_line(stderr: Seq<char>, stdout: Seq<char>) -> Option<Seq<char>> {
    last_non_blank(lines(stderr) + lines(stdout))
}

/// The last non-blank line of `ls` (see [`last_non_blank`]).
fn last_non_blank_of(ls: &Vec<String>) -> (r: Option<String>)
    ensures
        match r {
            Some(s) => last_non_blank(strs_view(ls@)) == Some(s@),
            None => last_non_blank(strs_view(ls@)) is None,
        },
{
    let ghost lv = strs_view(ls@);
    let mut k: usize = ls.len();
    assert(lv.take(k as int) =~= lv);
    while k > 0
        invariant
            k <= ls@.len(),
            lv == strs_view(ls@),
            last_non_blank(lv) == last_non_blank(lv.take(k as int)),
        decreases k,
    {
        assert(lv.take(k as int).last() == ls@[k - 1]@);
        assert(lv.take(k as int).drop_last() =~= lv.take(k - 1));
        let t = trim_string(ls[k - 1].as_str());
        if !t.as_str().is_empty() {
            return Some(t);
        }
        k -= 1;
    }
    None
}

/// The last line an agent wrote that is not blank (see [`last_output_line`]).
pub fn last_agent_output_line(stderr: &str, stdout: &str) -> (r: Option<String>)
    ensures
        match r {
            Some(s) => last_output_line(stderr@, stdout@) == Some(s@),
            None => last_output_line(stderr@, stdout@) is None,
        },
{
    let mut all = lines_of(stderr);
    let ghost first = all@;
    let mut rest = lines_of(stdout);
    let ghost second = rest@;
    all.append(&mut rest);
    assert(strs_view(all@) =~= strs_view(first) + strs_view(second));
    last_non_blank_of(&all)
}

/// What is reported when an agent exits unsuccessfully: its program, its exit
/// status and, where there is one, its last non-blank line.
pub open spec fn agent_failure_message(program: Seq<char>, status: Seq<char>, last_line: Option<Seq<char>>) -> Seq<char> {
    match last_line {
        Some(l) => program + " exited with status "@ + status + ": "@ + l,
        None => program + " exited with status "@ + status,
    }
}

/// The report of an unsuccessful agent run (see [`agent_failure_message`]);
/// `status` is the exit status as text.
pub fn agent_failure(program: &str, status: &str, stderr: &str, stdout: &str) -> (r: String)
    ensures
        r@ == agent_failure_message(program@, status@, last_output_line(stderr@, stdout@)),
{
    let mut m = program.to_owned();
    push_str(&mut m, " exited with status ");
    push_str(&mut m, status);
    if let Some(line) = last_agent_output_line(stderr, stdout) {
        push_str(&mut m, ": ");
        push_str(&mut m, line.as_str());
    }
    m
}

/// The report of an agent that could not be started.
pub fn agent_launch_failure(program: &str) -> (r: String)
    ensures
        r@ == "failed to launch "@ + program@,
{
    let mut m = "failed to launch ".to_owned();
    push_str(&mut m, program);
    m
}

} // verus!

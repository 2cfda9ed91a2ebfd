//! The command line: its commands as plain data, and the shell setup text.
use crate::paths::{camino_join, path_join};
use crate::remote::{parse_remote, parse_remote_spec};
use crate::text::{decimal, decimal_string, push_str, strs_view};
use crate::workspace::{destination_for, destination_spec};
use vstd::prelude::*;

verus! {

/// The shells that setup text exists for.
#[derive(Debug, Clone, Copy, PartialEq, Eq, Structural)]
pub enum ShellArg {
    Fish,
}

/// The `shell` subcommands.
#[derive(Debug, Clone, Copy, PartialEq, Eq, Structural)]
pub enum ShellCommands {
    Init { shell: ShellArg },
}

/// The `repo` subcommands.
pub enum RepoCommands {
    Clone { remote: String },
    Remove { target: String, yes: bool },
    Import { source: String },
    Refresh,
}

/// The commands.
pub enum Commands {
    Setup { path: String },
    Repo { command: RepoCommands },
    Jumpto { query: Option<String> },
    Shell { command: ShellCommands },
    CompleteJumpto,
    CompleteRepoRemove,
}

/// A parsed command line.
pub struct Cli {
    pub command: Commands,
}

/// The outcome of cloning many repositories: how many were cloned, and which
/// were skipped or failed, with why.
pub struct BulkSummary {
    pub cloned: usize,
    pub skipped: Vec<(String, String)>,
    pub failed: Vec<(String, String)>,
}

/// The fish setup: a `jumpto` function that changes into the chosen
/// repository, the completions, and completions for `jumpto` and `repo remove`.
pub open spec fn fish_init_spec(completions: Seq<char>) -> Seq<char> {
    "function jumpto --description 'cd into a Nanite repository'\n    set -l destination (nanite jumpto $argv)\n    or return $status\n    if test -n \"$destination\"\n        cd \"$destination\"\n    end\nend\n"@
        + completions
        + "\ncomplete -c jumpto -f -a '(nanite __complete-jumpto)'\ncomplete -c nanite -n '__fish_seen_subcommand_from repo; and __fish_seen_subcommand_from remove' -f -a '(nanite __complete-repo-remove)'\n"@
}

/// The fish setup around the generated completions (see [`fish_init_spec`]).
pub fn fish_init_script(completions: &str) -> (r: String)
    ensures
        r@ == fish_init_spec(completions@),
{
    let mut r = "function jumpto --description 'cd into a Nanite repository'\n    set -l destination (nanite jumpto $argv)\n    or return $status\n    if test -n \"$destination\"\n        cd \"$destination\"\n    end\nend\n".to_owned();
    push_str(&mut r, completions);
    push_str(&mut r, "\ncomplete -c jumpto -f -a '(nanite __complete-jumpto)'\ncomplete -c nanite -n '__fish_seen_subcommand_from repo; and __fish_seen_subcommand_from remove' -f -a '(nanite __complete-repo-remove)'\n");
    r
}

/// The question asked before cloning over existing destinations.
pub open spec fn overwrite_prompt_spec(existing: nat) -> Seq<char> {
    if existing == 1 {
        "1 destination already exists. Overwrite it?"@
    } else {
        decimal(existing) + " destinations already exist. Overwrite them?"@
    }
}

/// The question asked before cloning over existing destinations (see
/// [`overwrite_prompt_spec`]).
pub fn overwrite_prompt(existing: usize) -> (r: String)
    ensures
        r@ == overwrite_prompt_spec(existing as nat),
{
    if existing == 1 {
        return "1 destination already exists. Overwrite it?".to_owned();
    }
    let mut r = decimal_string(existing);
    push_str(&mut r, " destinations already exist. Overwrite them?");
    r
}

/// One line per skipped or failed repository, each with why.
pub open spec fn outcome_lines(items: Seq<(String, String)>, mark: Seq<char>, open: Seq<char>, close: Seq<char>) -> Seq<Seq<char>> {
    items.map_values(|p: (String, String)| "  "@ + mark + " "@ + p.0@ + open + p.1@ + close)
}

/// The report of a bulk clone: the counts, then each skipped repository with
/// why, then each failed one with why.
pub open spec fn summary_lines_spec(s: BulkSummary) -> Seq<Seq<char>> {
    seq![
        "cloned "@ + decimal(s.cloned as nat) + ", skipped "@ + decimal(s.skipped@.len()) + ", failed "@
            + decimal(s.failed@.len()),
    ] + outcome_lines(s.skipped@, "~"@, " ("@, ")"@) + outcome_lines(s.failed@, "x"@, " \u{2014} "@, ""@)
}

/// The lines for one kind of outcome (see [`outcome_lines`]).
fn outcome_lines_of(items: &Vec<(String, String)>, mark: &str, open: &str, close: &str) -> (r: Vec<String>)
    ensures
        strs_view(r@) == outcome_lines(items@, mark@, open@, close@),
{
    let mut r: Vec<String> = Vec::new();
    let mut i: usize = 0;
    while i < items.len()
        invariant
            i <= items@.len(),
            strs_view(r@) == outcome_lines(items@.take(i as int), mark@, open@, close@),
        decreases items.len() - i,
    {
        let mut line = "  ".to_owned();
        push_str(&mut line, mark);
        push_str(&mut line, " ");
        push_str(&mut line, items[i].0.as_str());
        push_str(&mut line, open);
        push_str(&mut line, items[i].1.as_str());
        push_str(&mut line, close);
        let ghost before = r@;
        r.push(line);
        assert(strs_view(r@) =~= strs_view(before).push(line@));
        assert(outcome_lines(items@.take(i + 1), mark@, open@, close@) =~= outcome_lines(items@.take(i as int), mark@, open@, close@).push(line@));
        i += 1;
    }
    assert(items@.take(items@.len() as int) =~= items@);
    r
}

impl BulkSummary {
    /// The report of a bulk clone (see [`summary_lines_spec`]).
    pub fn lines(&self) -> (r: Vec<String>)
        ensures
            strs_view(r@) == summary_lines_spec(*self),
    {
        let mut head = "cloned ".to_owned();
        push_str(&mut head, decimal_string(self.cloned).as_str());
        push_str(&mut head, ", skipped ");
        push_str(&mut head, decimal_string(self.skipped.len()).as_str());
        push_str(&mut head, ", failed ");
        push_str(&mut head, decimal_string(self.failed.len()).as_str());
        let mut r: Vec<String> = Vec::new();
        r.push(head);
        let mut skipped = outcome_lines_of(&self.skipped, "~", " (", ")");
        let mut failed = outcome_lines_of(&self.failed, "x", " \u{2014} ", "");
        let ghost a = r@;
        let ghost b = skipped@;
        let ghost c = failed@;
        r.append(&mut skipped);
        r.append(&mut failed);
        assert(r@ == a + b + c);
        assert(strs_view(r@) =~= strs_view(a) + strs_view(b) + strs_view(c));
        r
    }
}

/// Where a bulk clone puts a repository: the checkout path of its clone URL
/// under the repository root, or `__unparseable__` there for a URL that is no
/// remote.
pub open spec fn bulk_destination_spec(repos_root: Seq<char>, clone_url: Seq<char>) -> Seq<char> {
    match parse_remote_spec(clone_url) {
        Ok((host, repo_path)) => destination_spec(repos_root, host, repo_path),
        Err(_) => camino_join(repos_root, "__unparseable__"@),
    }
}

/// Where a bulk clone puts a repository (see [`bulk_destination_spec`]).
pub fn bulk_destination(repos_root: &str, clone_url: &str) -> (r: String)
    ensures
        r@ == bulk_destination_spec(repos_root@, clone_url@),
{
    match parse_remote(clone_url) {
        Ok(spec) => destination_for(repos_root, &spec),
        Err(_) => path_join(repos_root, "__unparseable__"),
    }
}

/// Repositories and reasons as plain values.
pub open spec fn outcomes_view(items: Seq<(String, String)>) -> Seq<(Seq<char>, Seq<char>)> {
    items.map_values(|p: (String, String)| (p.0@, p.1@))
}

impl BulkSummary {
    /// A summary with nothing cloned, skipped or failed.
    pub fn new() -> (s: Self)
        ensures
            s.cloned == 0,
            s.skipped@.len() == 0,
            s.failed@.len() == 0,
    {
        BulkSummary { cloned: 0, skipped: Vec::new(), failed: Vec::new() }
    }

    /// Decides one repository of a bulk clone: one whose destination exists is
    /// skipped as `already exists` unless overwriting was agreed to; any other
    /// is to be cloned, and the summary is left as it was.
    pub fn skip_or_clone(&mut self, clone_url: &str, dest_exists: bool, force_existing: bool) -> (clone: bool)
        ensures
            clone == !(dest_exists && !force_existing),
            final(self).cloned == old(self).cloned,
            outcomes_view(final(self).failed@) == outcomes_view(old(self).failed@),
            outcomes_view(final(self).skipped@) == (if clone {
                outcomes_view(old(self).skipped@)
            } else {
                outcomes_view(old(self).skipped@).push((clone_url@, "already exists"@))
            }),
    {
        if dest_exists && !force_existing {
            let ghost before = self.skipped@;
            self.skipped.push((clone_url.to_owned(), "already exists".to_owned()));
            assert(outcomes_view(self.skipped@) =~= outcomes_view(before).push((clone_url@, "already exists"@)));
            false
        } else {
            true
        }
    }

    /// Counts what one clone came to: a success adds to the cloned count, a
    /// failure is listed with its message.
    pub fn record_clone(&mut self, clone_url: &str, outcome: Result<(), String>)
        requires
            old(self).cloned < usize::MAX,
        ensures
            outcomes_view(final(self).skipped@) == outcomes_view(old(self).skipped@),
            match outcome {
                Ok(()) => {
                    &&& final(self).cloned == old(self).cloned + 1
                    &&& outcomes_view(final(self).failed@) == outcomes_view(old(self).failed@)
                },
                Err(m) => {
                    &&& final(self).cloned == old(self).cloned
                    &&& outcomes_view(final(self).failed@) == outcomes_view(old(self).failed@).push((clone_url@, m@))
                },
            },
    {
        match outcome {
            Ok(()) => {
                self.cloned = self.cloned + 1;
            },
            Err(m) => {
                let ghost before = self.failed@;
                let ghost mv = m@;
                self.failed.push((clone_url.to_owned(), m));
                assert(outcomes_view(self.failed@) =~= outcomes_view(before).push((clone_url@, mv)));
            },
        }
    }
}

} // verus!

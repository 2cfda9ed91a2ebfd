//! The steps of `nanite init` and what its progress view shows of them.
use crate::text::{decimal, decimal_string, is_whitespace, push_char, push_str};
use vstd::prelude::*;

verus! {

/// Where a step stands.
#[derive(Debug, Clone, Copy, PartialEq, Eq, Structural)]
pub enum InitStepState {
    Pending,
    Active,
    Done,
    Failed,
}

/// One step of the run.
pub struct InitStep {
    pub label: String,
    pub status: InitStepState,
    pub detail: Option<String>,
}

/// The steps of one `nanite init` run and where each stands.
pub struct InitProgressModel {
    pub bundle_name: String,
    pub template_count: usize,
    pub steps: Vec<InitStep>,
    pub inspect_index: Option<usize>,
    pub generate_index: Option<usize>,
    pub verify_index: Option<usize>,
    pub repair_index: Option<usize>,
    pub reverify_index: Option<usize>,
    pub write_index: usize,
}

/// The step labels of a run; the agent steps come only where an agent must
/// write.
pub open spec fn step_labels(requires_agent: bool) -> Seq<Seq<char>> {
    if requires_agent {
        seq![
            "Select bundle"@,
            "Collect text inputs"@,
            "Inspect repository context"@,
            "Generate AI fragments"@,
            "Verify outputs"@,
            "Repair failing sections"@,
            "Re-verify outputs"@,
            "Write files"@,
        ]
    } else {
        seq!["Select bundle"@, "Collect text inputs"@, "Write files"@]
    }
}

pub open spec fn step_label_view(s: Seq<InitStep>) -> Seq<Seq<char>> {
    s.map_values(|x: InitStep| x.label@)
}

fn pending_step(label: &str) -> (s: InitStep)
    ensures
        s.label@ == label@,
        s.status == InitStepState::Pending,
        s.detail is None,
{
    InitStep { label: label.to_owned(), status: InitStepState::Pending, detail: None }
}

/// The index of the first step in state `st`.
pub open spec fn first_in(steps: Seq<InitStep>, st: InitStepState) -> Option<int> {
    if exists|i: int| 0 <= i < steps.len() && (#[trigger] steps[i]).status == st {
        Some(choose|i: int| 0 <= i < steps.len() && (#[trigger] steps[i]).status == st && forall|j: int| 0 <= j < i ==> (#[trigger] steps[j]).status != st)
    } else {
        None
    }
}

/// The index of the last step in state `st`.
pub open spec fn last_in(steps: Seq<InitStep>, st: InitStepState) -> Option<int> {
    if exists|i: int| 0 <= i < steps.len() && (#[trigger] steps[i]).status == st {
        Some(choose|i: int| 0 <= i < steps.len() && (#[trigger] steps[i]).status == st && forall|j: int| i < j < steps.len() ==> (#[trigger] steps[j]).status != st)
    } else {
        None
    }
}

/// The step the view dwells on: the first failed one, else the first active
/// one, else the last finished one.
pub open spec fn current_spec(steps: Seq<InitStep>) -> Option<int> {
    match first_in(steps, InitStepState::Failed) {
        Some(i) => Some(i),
        None => match first_in(steps, InitStepState::Active) {
            Some(i) => Some(i),
            None => last_in(steps, InitStepState::Done),
        },
    }
}

/// The first step in state `st`, searching forward.
fn find_first(steps: &Vec<InitStep>, st: InitStepState) -> (r: Option<usize>)
    ensures
        match r {
            Some(i) => first_in(steps@, st) == Some(i as int) && i < steps@.len(),
            None => first_in(steps@, st) is None,
        },
{
    let mut i: usize = 0;
    while i < steps.len()
        invariant
            i <= steps@.len(),
            forall|j: int| 0 <= j < i ==> (#[trigger] steps@[j]).status != st,
        decreases steps.len() - i,
    {
        if steps[i].status == st {
            proof {
                let c = choose|c: int| 0 <= c < steps@.len() && (#[trigger] steps@[c]).status == st && forall|j: int| 0 <= j < c ==> (#[trigger] steps@[j]).status != st;
                if c < i {
                    assert(steps@[c].status != st);
                } else if c > i {
                    assert(steps@[i as int].status != st);
                }
            }
            return Some(i);
        }
        i += 1;
    }
    None
}

/// The last step in state `st`, searching backward.
fn find_last(steps: &Vec<InitStep>, st: InitStepState) -> (r: Option<usize>)
    ensures
        match r {
            Some(i) => last_in(steps@, st) == Some(i as int) && i < steps@.len(),
            None => last_in(steps@, st) is None,
        },
{
    let mut i: usize = steps.len();
    while i > 0
        invariant
            i <= steps@.len(),
            forall|j: int| i <= j < steps@.len() ==> (#[trigger] steps@[j]).status != st,
        decreases i,
    {
        if steps[i - 1].status == st {
            proof {
                let k = (i - 1) as int;
                let c = choose|c: int| 0 <= c < steps@.len() && (#[trigger] steps@[c]).status == st && forall|j: int| c < j < steps@.len() ==> (#[trigger] steps@[j]).status != st;
                if c < k {
                    assert(steps@[k].status != st);
                } else if c > k {
                    assert(steps@[c].status != st);
                }
            }
            return Some(i - 1);
        }
        i -= 1;
    }
    None
}

/// The verb of a state in plain progress lines.
pub open spec fn state_verb(s: InitStepState) -> Seq<char> {
    match s {
        InitStepState::Pending => "pending"@,
        InitStepState::Active => "active"@,
        InitStepState::Done => "done"@,
        InitStepState::Failed => "failed"@,
    }
}

/// `prefix label`, or `prefix label: detail` where the step has a detail.
pub open spec fn step_message(prefix: Seq<char>, s: InitStep) -> Seq<char> {
    match s.detail {
        Some(d) => prefix + " "@ + s.label@ + ": "@ + d@,
        None => prefix + " "@ + s.label@,
    }
}

/// The last step that is not pending (the first step where all are).
pub open spec fn milestone_index(steps: Seq<InitStep>) -> int {
    if exists|i: int| 0 <= i < steps.len() && (#[trigger] steps[i]).status != InitStepState::Pending {
        choose|i: int| 0 <= i < steps.len() && (#[trigger] steps[i]).status != InitStepState::Pending
            && forall|j: int| i < j < steps.len() ==> (#[trigger] steps[j]).status == InitStepState::Pending
    } else {
        0
    }
}

fn step_message_of(prefix: &str, s: &InitStep) -> (m: String)
    ensures
        m@ == step_message(prefix@, *s),
{
    let mut m = prefix.to_owned();
    push_str(&mut m, " ");
    push_str(&mut m, s.label.as_str());
    match &s.detail {
        Some(d) => {
            push_str(&mut m, ": ");
            push_str(&mut m, d.as_str());
        },
        None => {},
    }
    m
}

fn verb_of(s: InitStepState) -> (v: &'static str)
    ensures
        v@ == state_verb(s),
{
    match s {
        InitStepState::Pending => "pending",
        InitStepState::Active => "active",
        InitStepState::Done => "done",
        InitStepState::Failed => "failed",
    }
}

/// The text of a detail as the step list shows it: whitespace runs collapsed to
/// one space, leading and trailing whitespace dropped (`split_whitespace` joined
/// by spaces).
pub open spec fn compact_fold(s: Seq<char>) -> (Seq<char>, bool)
    decreases s.len(),
{
    if s.len() == 0 {
        (Seq::empty(), false)
    } else {
        let (out, gap) = compact_fold(s.drop_last());
        let c = s.last();
        if is_whitespace(c) {
            (out, out.len() > 0)
        } else if gap {
            (out.push(' ').push(c), false)
        } else {
            (out.push(c), false)
        }
    }
}

pub open spec fn compact(s: Seq<char>) -> Seq<char> {
    compact_fold(s).0
}

/// A detail compacted and cut to 72 characters, with `…` where it was longer.
pub open spec fn truncate_detail_spec(s: Seq<char>) -> Seq<char> {
    let c = compact(s);
    if c.len() > 72 {
        c.take(72).push('…')
    } else {
        c
    }
}

/// Compacts and cuts a detail (see [`truncate_detail_spec`]).
pub fn truncate_progress_detail(detail: &str) -> (r: String)
    ensures
        r@ == truncate_detail_spec(detail@),
{
    let v = crate::text::to_chars(detail);
    let mut out: Vec<char> = Vec::new();
    let mut gap = false;
    let mut i: usize = 0;
    assert(v@.take(0) =~= Seq::<char>::empty());
    while i < v.len()
        invariant
            i <= v@.len(),
            v@ == detail@,
            out@.len() <= 2 * i,
            compact_fold(v@.take(i as int)) == (out@, gap),
        decreases v.len() - i,
    {
        assert(v@.take(i + 1).drop_last() =~= v@.take(i as int));
        let c = v[i];
        if crate::text::char_is_whitespace(c) {
            gap = out.len() > 0;
        } else {
            if gap {
                out.push(' ');
            }
            out.push(c);
            gap = false;
        }
        i += 1;
    }
    assert(v@.take(v@.len() as int) =~= v@);
    if out.len() > 72 {
        let mut r = crate::text::string_from_range(&out, 0, 72);
        push_char(&mut r, '…');
        assert(out@.subrange(0, 72) =~= out@.take(72));
        r
    } else {
        crate::text::from_chars(&out)
    }
}

/// A step line of the progress view.
pub struct StepLine {
    pub icon: &'static str,
    pub label: String,
    pub detail: Option<String>,
    pub status: InitStepState,
    pub highlighted: bool,
}

/// The icon of a state.
pub open spec fn state_icon(s: InitStepState) -> Seq<char> {
    match s {
        InitStepState::Pending => "○"@,
        InitStepState::Active => "▶"@,
        InitStepState::Done => "✓"@,
        InitStepState::Failed => "×"@,
    }
}

/// The word the detail panel shows for a state.
pub open spec fn state_word(s: InitStepState) -> Seq<char> {
    match s {
        InitStepState::Pending => "Queued"@,
        InitStepState::Active => "Working"@,
        InitStepState::Done => "Done"@,
        InitStepState::Failed => "Failed"@,
    }
}

fn icon_of(s: InitStepState) -> (v: &'static str)
    ensures
        v@ == state_icon(s),
{
    match s {
        InitStepState::Pending => "○",
        InitStepState::Active => "▶",
        InitStepState::Done => "✓",
        InitStepState::Failed => "×",
    }
}

fn word_of(s: InitStepState) -> (v: &'static str)
    ensures
        v@ == state_word(s),
{
    match s {
        InitStepState::Pending => "Queued",
        InitStepState::Active => "Working",
        InitStepState::Done => "Done",
        InitStepState::Failed => "Failed",
    }
}

/// The header lines of the progress view.
pub open spec fn header_spec(bundle_name: Seq<char>, template_count: nat) -> Seq<Seq<char>> {
    seq![
        "bundle: "@ + bundle_name,
        "Preparing "@ + decimal(template_count) + " file(s) in the current repository"@,
        "Track bundle selection, AI generation, verification, and file writes."@,
    ]
}

/// The detail panel: the current step's state word and label, its detail, and a
/// closing note; or a waiting note where no step is current.
pub open spec fn detail_panel_spec(steps: Seq<InitStep>) -> Seq<Seq<char>> {
    match current_spec(steps) {
        None => seq!["Waiting for work"@, Seq::empty(), "The selected bundle is ready to render."@],
        Some(i) => {
            let s = steps[i];
            let head = seq![state_word(s.status) + "  "@ + s.label@, Seq::empty()];
            let mid = match s.detail {
                Some(d) => seq![d@, Seq::empty()],
                None => Seq::empty(),
            };
            head + mid + seq!["Nanite will restore the terminal when this run completes."@]
        },
    }
}

impl InitProgressModel {
    /// A run with all steps pending.
    pub fn new(bundle_name: String, template_count: usize, requires_agent: bool) -> (p: Self)
        ensures
            step_label_view(p.steps@) == step_labels(requires_agent),
            forall|i: int| 0 <= i < p.steps@.len() ==> (#[trigger] p.steps@[i]).status == InitStepState::Pending
                && p.steps@[i].detail is None,
            p.bundle_name@ == bundle_name@,
            p.template_count == template_count,
            p.write_index as int == p.steps@.len() - 1,
            requires_agent ==> p.inspect_index == Some(2usize) && p.generate_index == Some(3usize)
                && p.verify_index == Some(4usize) && p.repair_index == Some(5usize) && p.reverify_index == Some(6usize),
            !requires_agent ==> p.inspect_index is None && p.generate_index is None && p.verify_index is None
                && p.repair_index is None && p.reverify_index is None,
    {
        let mut steps: Vec<InitStep> = Vec::new();
        steps.push(pending_step("Select bundle"));
        steps.push(pending_step("Collect text inputs"));
        let mut inspect_index = None;
        let mut generate_index = None;
        let mut verify_index = None;
        let mut repair_index = None;
        let mut reverify_index = None;
        if requires_agent {
            inspect_index = Some(steps.len());
            steps.push(pending_step("Inspect repository context"));
            generate_index = Some(steps.len());
            steps.push(pending_step("Generate AI fragments"));
            verify_index = Some(steps.len());
            steps.push(pending_step("Verify outputs"));
            repair_index = Some(steps.len());
            steps.push(pending_step("Repair failing sections"));
            reverify_index = Some(steps.len());
            steps.push(pending_step("Re-verify outputs"));
        }
        let write_index = steps.len();
        steps.push(pending_step("Write files"));
        assert(step_label_view(steps@) =~= step_labels(requires_agent));
        InitProgressModel {
            bundle_name,
            template_count,
            steps,
            inspect_index,
            generate_index,
            verify_index,
            repair_index,
            reverify_index,
            write_index,
        }
    }

    /// The index of the bundle selection step: always the first.
    pub fn select_step_index() -> (r: usize)
        ensures
            r == 0,
    {
        0
    }

    /// The index of the input collection step: always the second.
    pub fn collect_inputs_step_index() -> (r: usize)
        ensures
            r == 1,
    {
        1
    }

    /// The index of the write step: always the last.
    pub fn write_step_index(&self) -> (r: usize)
        ensures
            r == self.write_index,
    {
        self.write_index
    }

    /// A one-line account of the run: the first failed step, else the first
    /// active one, else the last done one, each with its detail; `waiting`
    /// where none is.
    pub fn rendered(&self) -> (m: String)
        ensures
            m@ == rendered_spec(self.steps@),
    {
        match find_first(&self.steps, InitStepState::Failed) {
            Some(i) => step_message_of("failed", &self.steps[i]),
            None => match find_first(&self.steps, InitStepState::Active) {
                Some(i) => step_message_of("working", &self.steps[i]),
                None => match find_last(&self.steps, InitStepState::Done) {
                    Some(i) => step_message_of("done", &self.steps[i]),
                    None => "waiting".to_owned(),
                },
            },
        }
    }

    /// The index of the inspect step, or of the write step where there is none.
    pub fn inspect_step_index(&self) -> (r: usize)
        ensures
            r == match self.inspect_index {
                Some(i) => i,
                None => self.write_index,
            },
    {
        match self.inspect_index {
            Some(i) => i,
            None => self.write_index,
        }
    }

    /// The index of the generate step, or of the write step where there is none.
    pub fn generate_step_index(&self) -> (r: usize)
        ensures
            r == match self.generate_index {
                Some(i) => i,
                None => self.write_index,
            },
    {
        match self.generate_index {
            Some(i) => i,
            None => self.write_index,
        }
    }

    /// The index of the verify step, or of the write step where there is none.
    pub fn verify_step_index(&self) -> (r: usize)
        ensures
            r == match self.verify_index {
                Some(i) => i,
                None => self.write_index,
            },
    {
        match self.verify_index {
            Some(i) => i,
            None => self.write_index,
        }
    }

    /// The index of the repair step, or of the write step where there is none.
    pub fn repair_step_index(&self) -> (r: usize)
        ensures
            r == match self.repair_index {
                Some(i) => i,
                None => self.write_index,
            },
    {
        match self.repair_index {
            Some(i) => i,
            None => self.write_index,
        }
    }

    /// The index of the re-verify step, or of the write step where there is none.
    pub fn reverify_step_index(&self) -> (r: usize)
        ensures
            r == match self.reverify_index {
                Some(i) => i,
                None => self.write_index,
            },
    {
        match self.reverify_index {
            Some(i) => i,
            None => self.write_index,
        }
    }

    /// Sets a step's state and detail; the other steps keep theirs.
    pub fn set_step(&mut self, index: usize, status: InitStepState, detail: Option<String>)
        requires
            index < old(self).steps@.len(),
        ensures
            final(self).steps@.len() == old(self).steps@.len(),
            final(self).steps@[index as int].status == status,
            final(self).steps@[index as int].label@ == old(self).steps@[index as int].label@,
            final(self).steps@[index as int].detail == detail,
            forall|j: int| 0 <= j < old(self).steps@.len() && j != index ==> (#[trigger] final(self).steps@[j]) == old(self).steps@[j],
            final(self).bundle_name == old(self).bundle_name,
            final(self).template_count == old(self).template_count,
            final(self).write_index == old(self).write_index,
    {
        let label = self.steps[index].label.clone();
        self.steps.set(index, InitStep { label, status, detail });
    }

    /// Marks a step done.
    pub fn mark_done(&mut self, index: usize, detail: Option<String>)
        requires
            index < old(self).steps@.len(),
        ensures
            final(self).steps@.len() == old(self).steps@.len(),
            final(self).steps@[index as int].status == InitStepState::Done,
            final(self).steps@[index as int].detail == detail,
            forall|j: int| 0 <= j < old(self).steps@.len() && j != index ==> (#[trigger] final(self).steps@[j]) == old(self).steps@[j],
    {
        self.set_step(index, InitStepState::Done, detail);
    }

    /// Marks a step active.
    pub fn start(&mut self, index: usize, detail: Option<String>)
        requires
            index < old(self).steps@.len(),
        ensures
            final(self).steps@.len() == old(self).steps@.len(),
            final(self).steps@[index as int].status == InitStepState::Active,
            final(self).steps@[index as int].detail == detail,
            forall|j: int| 0 <= j < old(self).steps@.len() && j != index ==> (#[trigger] final(self).steps@[j]) == old(self).steps@[j],
    {
        self.set_step(index, InitStepState::Active, detail);
    }

    /// Marks a step failed.
    pub fn fail(&mut self, index: usize, detail: String)
        requires
            index < old(self).steps@.len(),
        ensures
            final(self).steps@.len() == old(self).steps@.len(),
            final(self).steps@[index as int].status == InitStepState::Failed,
            final(self).steps@[index as int].detail == Some(detail),
            forall|j: int| 0 <= j < old(self).steps@.len() && j != index ==> (#[trigger] final(self).steps@[j]) == old(self).steps@[j],
    {
        self.set_step(index, InitStepState::Failed, Some(detail));
    }

    /// The step the view dwells on (see [`current_spec`]).
    pub fn current_step_index(&self) -> (r: Option<usize>)
        ensures
            match r {
                Some(i) => current_spec(self.steps@) == Some(i as int) && i < self.steps@.len(),
                None => current_spec(self.steps@) is None,
            },
    {
        match find_first(&self.steps, InitStepState::Failed) {
            Some(i) => Some(i),
            None => match find_first(&self.steps, InitStepState::Active) {
                Some(i) => Some(i),
                None => find_last(&self.steps, InitStepState::Done),
            },
        }
    }

    /// The plain progress line: the last step that is not pending, with its
    /// state's verb, label and detail.
    pub fn last_milestone(&self) -> (m: String)
        requires
            self.steps@.len() > 0,
        ensures
            m@ == step_message(state_verb(self.steps@[milestone_index(self.steps@)].status), self.steps@[milestone_index(self.steps@)]),
    {
        let mut i: usize = self.steps.len();
        while i > 0
            invariant
                i <= self.steps@.len(),
                forall|j: int| i <= j < self.steps@.len() ==> (#[trigger] self.steps@[j]).status == InitStepState::Pending,
            decreases i,
        {
            if self.steps[i - 1].status != InitStepState::Pending {
                proof {
                    let k = (i - 1) as int;
                    let c = milestone_index(self.steps@);
                    assert(self.steps@[k].status != InitStepState::Pending);
                    if c < k {
                        assert(self.steps@[k].status == InitStepState::Pending);
                    } else if c > k {
                        assert(self.steps@[c].status == InitStepState::Pending);
                    }
                }
                let s = &self.steps[i - 1];
                return step_message_of(verb_of(s.status), s);
            }
            i -= 1;
        }
        let s = &self.steps[0];
        step_message_of(verb_of(s.status), s)
    }

    /// The header lines (see [`header_spec`]).
    pub fn header_lines(&self) -> (r: Vec<String>)
        ensures
            r@.map_values(|s: String| s@) == header_spec(self.bundle_name@, self.template_count as nat),
    {
        let mut first = "bundle: ".to_owned();
        push_str(&mut first, self.bundle_name.as_str());
        let mut second = "Preparing ".to_owned();
        push_str(&mut second, decimal_string(self.template_count).as_str());
        push_str(&mut second, " file(s) in the current repository");
        let third = "Track bundle selection, AI generation, verification, and file writes.".to_owned();
        let r = vec![first, second, third];
        assert(r@.map_values(|s: String| s@) =~= header_spec(self.bundle_name@, self.template_count as nat));
        r
    }

    /// The step lines: each step's icon, label and compacted detail (none where
    /// it is empty), the current one highlighted.
    pub fn step_lines(&self) -> (r: Vec<StepLine>)
        ensures
            r@.len() == self.steps@.len(),
            forall|i: int| 0 <= i < r@.len() ==> {
                let l = #[trigger] r@[i];
                let s = self.steps@[i];
                &&& l.icon@ == state_icon(s.status)
                &&& l.label@ == s.label@
                &&& l.status == s.status
                &&& l.highlighted == (current_spec(self.steps@) == Some(i))
                &&& match s.detail {
                    Some(d) => if truncate_detail_spec(d@).len() > 0 {
                        l.detail matches Some(x) && x@ == truncate_detail_spec(d@)
                    } else {
                        l.detail is None
                    },
                    None => l.detail is None,
                }
            },
    {
        let current = self.current_step_index();
        let mut r: Vec<StepLine> = Vec::new();
        let mut i: usize = 0;
        while i < self.steps.len()
            invariant
                i <= self.steps@.len(),
                r@.len() == i,
                match current {
                    Some(c) => current_spec(self.steps@) == Some(c as int),
                    None => current_spec(self.steps@) is None,
                },
                forall|k: int| 0 <= k < i ==> {
                    let l = #[trigger] r@[k];
                    let s = self.steps@[k];
                    &&& l.icon@ == state_icon(s.status)
                    &&& l.label@ == s.label@
                    &&& l.status == s.status
                    &&& l.highlighted == (current_spec(self.steps@) == Some(k))
                    &&& match s.detail {
                        Some(d) => if truncate_detail_spec(d@).len() > 0 {
                            l.detail matches Some(x) && x@ == truncate_detail_spec(d@)
                        } else {
                            l.detail is None
                        },
                        None => l.detail is None,
                    }
                },
            decreases self.steps.len() - i,
        {
            let s = &self.steps[i];
            let detail = match &s.detail {
                Some(d) => {
                    let t = truncate_progress_detail(d.as_str());
                    if t.as_str().is_empty() {
                        None
                    } else {
                        Some(t)
                    }
                },
                None => None,
            };
            let highlighted = match current {
                Some(c) => c == i,
                None => false,
            };
            r.push(StepLine { icon: icon_of(s.status), label: s.label.clone(), detail, status: s.status, highlighted });
            i += 1;
        }
        r
    }

    /// The detail panel's lines (see [`detail_panel_spec`]).
    pub fn detail_lines(&self) -> (r: Vec<String>)
        ensures
            r@.map_values(|s: String| s@) == detail_panel_spec(self.steps@),
    {
        match self.current_step_index() {
            None => {
                let r = vec!["Waiting for work".to_owned(), String::new(), "The selected bundle is ready to render.".to_owned()];
                assert(r@.map_values(|s: String| s@) =~= detail_panel_spec(self.steps@));
                r
            },
            Some(i) => {
                let s = &self.steps[i];
                let mut head = word_of(s.status).to_owned();
                push_str(&mut head, "  ");
                push_str(&mut head, s.label.as_str());
                let mut r: Vec<String> = vec![head, String::new()];
                match &s.detail {
                    Some(d) => {
                        r.push(d.clone());
                        r.push(String::new());
                    },
                    None => {},
                }
                r.push("Nanite will restore the terminal when this run completes.".to_owned());
                assert(r@.map_values(|s: String| s@) =~= detail_panel_spec(self.steps@));
                r
            },
        }
    }
}


/// The first failed step is the one the view shows, whatever else is active or
/// done.
pub proof fn law_first_failure_is_current(steps: Seq<InitStep>, i: int)
    requires
        0 <= i < steps.len(),
        steps[i].status == InitStepState::Failed,
        forall|j: int| 0 <= j < i ==> (#[trigger] steps[j]).status != InitStepState::Failed,
    ensures
        current_spec(steps) == Some(i),
{
    let c = choose|c: int| 0 <= c < steps.len() && (#[trigger] steps[c]).status == InitStepState::Failed && forall|j: int| 0 <= j < c ==> (#[trigger] steps[j]).status != InitStepState::Failed;
    assert(steps[i].status == InitStepState::Failed);
    if c < i {
        assert(steps[c].status != InitStepState::Failed);
    } else if c > i {
        assert(steps[i].status != InitStepState::Failed);
    }
}

/// With no failed step, the first active step is the one the view shows.
pub proof fn law_first_active_is_current(steps: Seq<InitStep>, i: int)
    requires
        0 <= i < steps.len(),
        steps[i].status == InitStepState::Active,
        forall|j: int| 0 <= j < steps.len() ==> (#[trigger] steps[j]).status != InitStepState::Failed,
        forall|j: int| 0 <= j < i ==> (#[trigger] steps[j]).status != InitStepState::Active,
    ensures
        current_spec(steps) == Some(i),
{
    let c = choose|c: int| 0 <= c < steps.len() && (#[trigger] steps[c]).status == InitStepState::Active && forall|j: int| 0 <= j < c ==> (#[trigger] steps[j]).status != InitStepState::Active;
    assert(steps[i].status == InitStepState::Active);
    if c < i {
        assert(steps[c].status != InitStepState::Active);
    } else if c > i {
        assert(steps[i].status != InitStepState::Active);
    }
}

/// What the clone progress view shows of how far a clone is.
pub enum CloneGauge {
    /// A bar filled to `percent`, labelled `position/total`.
    Bar { percent: u16, label: String },
    /// The number of steps so far, where no total is known.
    Steps(String),
}

/// `position * 100`, saturating at the largest `usize`.
pub open spec fn saturating_times_100(position: usize) -> int {
    if position * 100 > usize::MAX {
        usize::MAX as int
    } else {
        position * 100
    }
}

/// How far a clone is: with a known non-zero total, the percentage done (at
/// most 100) and `position/total` with the position capped at the total;
/// otherwise the number of steps reported.
pub open spec fn clone_gauge_spec(position: usize, total: Option<usize>) -> Result<(int, Seq<char>), Seq<char>> {
    match total {
        Some(t) if t > 0 => {
            let p = saturating_times_100(position) / (t as int);
            Ok((
                if p > 100 { 100 } else { p },
                decimal(if position <= t { position as nat } else { t as nat }) + "/"@ + decimal(t as nat),
            ))
        },
        _ => Err(decimal(position as nat) + " steps reported"@),
    }
}

pub open spec fn gauge_view(g: CloneGauge) -> Result<(int, Seq<char>), Seq<char>> {
    match g {
        CloneGauge::Bar { percent, label } => Ok((percent as int, label@)),
        CloneGauge::Steps(s) => Err(s@),
    }
}

/// What the clone progress view shows (see [`clone_gauge_spec`]).
pub fn clone_gauge(position: usize, total: Option<usize>) -> (g: CloneGauge)
    ensures
        gauge_view(g) == clone_gauge_spec(position, total),
{
    match total {
        Some(t) if t > 0 => {
            let scaled: usize = if position > usize::MAX / 100 {
                assert(position * 100 > usize::MAX) by (nonlinear_arith)
                    requires
                        position > usize::MAX / 100,
                ;
                usize::MAX
            } else {
                assert(position * 100 <= usize::MAX) by (nonlinear_arith)
                    requires
                        position <= usize::MAX / 100,
                ;
                position * 100
            };
            let p = scaled / t;
            let percent: u16 = if p > 100 { 100 } else { p as u16 };
            let mut label = decimal_string(if position <= t { position } else { t });
            push_str(&mut label, "/");
            push_str(&mut label, decimal_string(t).as_str());
            CloneGauge::Bar { percent, label }
        },
        _ => {
            let mut s = decimal_string(position);
            push_str(&mut s, " steps reported");
            CloneGauge::Steps(s)
        },
    }
}

/// A one-line account of a run (see `InitProgressModel::rendered`).
pub open spec fn rendered_spec(steps: Seq<InitStep>) -> Seq<char> {
    match first_in(steps, InitStepState::Failed) {
        Some(i) => step_message("failed"@, steps[i]),
        None => match first_in(steps, InitStepState::Active) {
            Some(i) => step_message("working"@, steps[i]),
            None => match last_in(steps, InitStepState::Done) {
                Some(i) => step_message("done"@, steps[i]),
                None => "waiting"@,
            },
        },
    }
}

} // verus!

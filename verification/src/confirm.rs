//! The yes/no prompt, optionally over a scrollable list of items: how each
//! key press moves the highlighted item and the focused answer, and when the
//! prompt is answered.
use vstd::prelude::*;

verus! {

/// A key as the prompt tells keys apart.
#[derive(Debug, Clone, Copy, PartialEq, Eq, Structural)]
pub enum KeyCode {
    Esc,
    Enter,
    Up,
    Down,
    PageUp,
    PageDown,
    Home,
    End,
    Left,
    Right,
    Char(char),
    Other,
}

/// A key press: the key, and whether Control was held.
#[derive(Debug, Clone, Copy, PartialEq, Eq, Structural)]
pub struct KeyPress {
    pub code: KeyCode,
    pub control: bool,
}

/// The prompt between key presses: the highlighted item, where there are
/// items, and the focused answer.
#[derive(Debug, Clone, Copy, PartialEq, Eq, Structural)]
pub struct ConfirmState {
    pub selected: Option<usize>,
    pub accepted: bool,
}

/// What a key press does: the prompt goes on in a new state, or is answered.
#[derive(Debug, Clone, Copy, PartialEq, Eq, Structural)]
pub enum ConfirmStep {
    Continue(ConfirmState),
    Answer(bool),
}

/// Whether a key press cancels the prompt: Escape, or Control and `c`.
pub open spec fn is_cancel_spec(key: KeyPress) -> bool {
    key.code == KeyCode::Esc || (key.code == KeyCode::Char('c') && key.control)
}

/// Whether the highlighted item lies within a list of `len` items: there is
/// one exactly when the list is not empty.
pub open spec fn within(state: ConfirmState, len: nat) -> bool {
    match state.selected {
        Some(s) => s < len,
        None => len == 0,
    }
}

/// The state of a fresh prompt: the first item highlighted, where there are
/// items, and the default answer focused.
pub open spec fn initial_spec(default: bool, len: nat) -> ConfirmState {
    ConfirmState { selected: if len > 0 { Some(0usize) } else { None }, accepted: default }
}

/// The highlighted item moved to `to`.
pub open spec fn select(state: ConfirmState, to: int) -> ConfirmStep {
    ConfirmStep::Continue(ConfirmState { selected: Some(to as usize), accepted: state.accepted })
}

/// What a key press does. Cancelling answers no. With items, up and `k` move
/// the highlight one item up, down and `j` one down, page keys ten, home and
/// end to either end, never past the ends. Left and `h` focus yes, right and
/// `l` focus no; `y` and `n` answer directly; Enter answers the focused
/// answer. Any other key changes nothing.
pub open spec fn confirm_step_spec(state: ConfirmState, len: nat, key: KeyPress) -> ConfirmStep {
    let cur: int = match state.selected {
        Some(s) => s as int,
        None => 0,
    };
    if is_cancel_spec(key) {
        ConfirmStep::Answer(false)
    } else if len > 0 && (key.code == KeyCode::Up || key.code == KeyCode::Char('k')) {
        select(state, if cur >= 1 { cur - 1 } else { 0 })
    } else if len > 0 && (key.code == KeyCode::Down || key.code == KeyCode::Char('j')) {
        select(state, if cur + 1 <= len - 1 { cur + 1 } else { len - 1 })
    } else if len > 0 && key.code == KeyCode::PageUp {
        select(state, if cur >= 10 { cur - 10 } else { 0 })
    } else if len > 0 && key.code == KeyCode::PageDown {
        select(state, if cur + 10 <= len - 1 { cur + 10 } else { len - 1 })
    } else if len > 0 && key.code == KeyCode::Home {
        select(state, 0)
    } else if len > 0 && key.code == KeyCode::End {
        select(state, len - 1)
    } else if key.code == KeyCode::Left || key.code == KeyCode::Char('h') {
        ConfirmStep::Continue(ConfirmState { selected: state.selected, accepted: true })
    } else if key.code == KeyCode::Right || key.code == KeyCode::Char('l') {
        ConfirmStep::Continue(ConfirmState { selected: state.selected, accepted: false })
    } else if key.code == KeyCode::Char('y') {
        ConfirmStep::Answer(true)
    } else if key.code == KeyCode::Char('n') {
        ConfirmStep::Answer(false)
    } else if key.code == KeyCode::Enter {
        ConfirmStep::Answer(state.accepted)
    } else {
        ConfirmStep::Continue(state)
    }
}

/// Whether a key press cancels the prompt (see [`is_cancel_spec`]).
pub fn is_cancel(key: KeyPress) -> (r: bool)
    ensures
        r == is_cancel_spec(key),
{
    match key.code {
        KeyCode::Esc => true,
        KeyCode::Char(c) => c == 'c' && key.control,
        _ => false,
    }
}

impl ConfirmState {
    /// A fresh prompt over `len` items (see [`initial_spec`]).
    pub fn initial(default: bool, len: usize) -> (r: ConfirmState)
        ensures
            r == initial_spec(default, len as nat),
            within(r, len as nat),
    {
        ConfirmState { selected: if len > 0 { Some(0) } else { None }, accepted: default }
    }
}

fn is_char(code: KeyCode, c: char) -> (r: bool)
    ensures
        r == (code == KeyCode::Char(c)),
{
    match code {
        KeyCode::Char(d) => d == c,
        _ => false,
    }
}

/// What a key press does to a prompt over `len` items (see
/// [`confirm_step_spec`]).
pub fn confirm_step(state: ConfirmState, len: usize, key: KeyPress) -> (r: ConfirmStep)
    requires
        within(state, len as nat),
    ensures
        r == confirm_step_spec(state, len as nat, key),
{
    let cur: usize = match state.selected {
        Some(s) => s,
        None => 0,
    };
    let code = key.code;
    if is_cancel(key) {
        return ConfirmStep::Answer(false);
    }
    let up = code == KeyCode::Up || is_char(code, 'k');
    let down = code == KeyCode::Down || is_char(code, 'j');
    if len > 0 && up {
        let to = if cur >= 1 { cur - 1 } else { 0 };
        return ConfirmStep::Continue(ConfirmState { selected: Some(to), accepted: state.accepted });
    }
    if len > 0 && down {
        let to = if cur + 1 <= len - 1 { cur + 1 } else { len - 1 };
        return ConfirmStep::Continue(ConfirmState { selected: Some(to), accepted: state.accepted });
    }
    if len > 0 && code == KeyCode::PageUp {
        let to = if cur >= 10 { cur - 10 } else { 0 };
        return ConfirmStep::Continue(ConfirmState { selected: Some(to), accepted: state.accepted });
    }
    if len > 0 && code == KeyCode::PageDown {
        let to = if cur <= len - 1 && len - 1 - cur >= 10 { cur + 10 } else { len - 1 };
        return ConfirmStep::Continue(ConfirmState { selected: Some(to), accepted: state.accepted });
    }
    if len > 0 && code == KeyCode::Home {
        return ConfirmStep::Continue(ConfirmState { selected: Some(0), accepted: state.accepted });
    }
    if len > 0 && code == KeyCode::End {
        return ConfirmStep::Continue(ConfirmState { selected: Some(len - 1), accepted: state.accepted });
    }
    if code == KeyCode::Left || is_char(code, 'h') {
        return ConfirmStep::Continue(ConfirmState { selected: state.selected, accepted: true });
    }
    if code == KeyCode::Right || is_char(code, 'l') {
        return ConfirmStep::Continue(ConfirmState { selected: state.selected, accepted: false });
    }
    if is_char(code, 'y') {
        return ConfirmStep::Answer(true);
    }
    if is_char(code, 'n') {
        return ConfirmStep::Answer(false);
    }
    if code == KeyCode::Enter {
        return ConfirmStep::Answer(state.accepted);
    }
    ConfirmStep::Continue(state)
}

/// Every key press keeps the highlighted item within the list: from a state
/// within a list of `len` items, the prompt either is answered or goes on in
/// a state within the same list.
pub proof fn law_selection_stays_within(state: ConfirmState, len: nat, key: KeyPress)
    requires
        within(state, len),
    ensures
        confirm_step_spec(state, len, key) matches ConfirmStep::Continue(next) ==> within(next, len),
{
}

/// `y` always answers yes and `n` always answers no, whatever is focused or
/// highlighted; Escape always answers no.
pub proof fn law_direct_answers(state: ConfirmState, len: nat, control: bool)
    ensures
        confirm_step_spec(state, len, KeyPress { code: KeyCode::Char('y'), control }) == ConfirmStep::Answer(true),
        confirm_step_spec(state, len, KeyPress { code: KeyCode::Char('n'), control }) == ConfirmStep::Answer(false),
        confirm_step_spec(state, len, KeyPress { code: KeyCode::Esc, control }) == ConfirmStep::Answer(false),
{
}

/// Enter answers with the focused answer, and focusing an answer then pressing
/// Enter gives that answer.
pub proof fn law_enter_answers_focus(state: ConfirmState, len: nat, control: bool)
    ensures
        confirm_step_spec(state, len, KeyPress { code: KeyCode::Enter, control }) == ConfirmStep::Answer(state.accepted),
        confirm_step_spec(state, len, KeyPress { code: KeyCode::Left, control }) matches ConfirmStep::Continue(s)
            && confirm_step_spec(s, len, KeyPress { code: KeyCode::Enter, control }) == ConfirmStep::Answer(true),
        confirm_step_spec(state, len, KeyPress { code: KeyCode::Right, control }) matches ConfirmStep::Continue(s)
            && confirm_step_spec(s, len, KeyPress { code: KeyCode::Enter, control }) == ConfirmStep::Answer(false),
{
}

} // verus!

use nanite::confirm::{confirm_step, is_cancel, ConfirmState, ConfirmStep, KeyCode, KeyPress};

fn key(code: KeyCode) -> KeyPress {
    KeyPress { code, control: false }
}

fn after(state: ConfirmState, len: usize, keys: &[KeyCode]) -> ConfirmStep {
    let mut state = state;
    for code in keys {
        match confirm_step(state, len, key(*code)) {
            ConfirmStep::Continue(next) => state = next,
            answer => return answer,
        }
    }
    ConfirmStep::Continue(state)
}

#[test]
fn a_fresh_prompt_highlights_the_first_item() {
    assert_eq!(ConfirmState::initial(false, 3), ConfirmState { selected: Some(0), accepted: false });
    assert_eq!(ConfirmState::initial(true, 0), ConfirmState { selected: None, accepted: true });
}

#[test]
fn enter_answers_the_focused_answer() {
    assert_eq!(after(ConfirmState::initial(false, 0), 0, &[KeyCode::Enter]), ConfirmStep::Answer(false));
    assert_eq!(after(ConfirmState::initial(true, 0), 0, &[KeyCode::Enter]), ConfirmStep::Answer(true));
    assert_eq!(after(ConfirmState::initial(false, 0), 0, &[KeyCode::Left, KeyCode::Enter]), ConfirmStep::Answer(true));
    assert_eq!(after(ConfirmState::initial(true, 0), 0, &[KeyCode::Char('l'), KeyCode::Enter]), ConfirmStep::Answer(false));
}

#[test]
fn y_n_and_cancel_answer_directly() {
    let s = ConfirmState::initial(false, 2);
    assert_eq!(confirm_step(s, 2, key(KeyCode::Char('y'))), ConfirmStep::Answer(true));
    assert_eq!(confirm_step(s, 2, key(KeyCode::Char('n'))), ConfirmStep::Answer(false));
    assert_eq!(confirm_step(s, 2, key(KeyCode::Esc)), ConfirmStep::Answer(false));
    let ctrl_c = KeyPress { code: KeyCode::Char('c'), control: true };
    assert!(is_cancel(ctrl_c));
    assert!(!is_cancel(key(KeyCode::Char('c'))));
    assert_eq!(confirm_step(s, 2, ctrl_c), ConfirmStep::Answer(false));
}

#[test]
fn the_highlight_moves_but_never_past_the_ends() {
    let s = ConfirmState::initial(false, 25);
    let at = |keys: &[KeyCode]| match after(s, 25, keys) {
        ConfirmStep::Continue(state) => state.selected,
        _ => panic!("the prompt should go on"),
    };
    assert_eq!(at(&[KeyCode::Up]), Some(0));
    assert_eq!(at(&[KeyCode::Down, KeyCode::Char('j')]), Some(2));
    assert_eq!(at(&[KeyCode::PageDown, KeyCode::PageDown, KeyCode::PageDown]), Some(24));
    assert_eq!(at(&[KeyCode::End, KeyCode::Down]), Some(24));
    assert_eq!(at(&[KeyCode::End, KeyCode::PageUp, KeyCode::Char('k')]), Some(13));
    assert_eq!(at(&[KeyCode::End, KeyCode::Home]), Some(0));
}

#[test]
fn without_items_moving_keys_do_nothing() {
    let s = ConfirmState::initial(false, 0);
    assert_eq!(confirm_step(s, 0, key(KeyCode::Down)), ConfirmStep::Continue(s));
    assert_eq!(confirm_step(s, 0, key(KeyCode::Other)), ConfirmStep::Continue(s));
}

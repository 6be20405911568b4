use hot::decision::{decode, raw_mode_restore_needed, watch_decision, InputEvent, ReloadDecision};

fn press(ch: char, ctrl: bool, shift: bool, other: bool) -> InputEvent {
    InputEvent::CharPress { ch, ctrl, shift, other }
}

#[test]
fn ctrl_c_quits() {
    assert_eq!(decode(&press('c', true, false, false)), ReloadDecision::Quit);
}

#[test]
fn ctrl_d_quits() {
    assert_eq!(decode(&press('d', true, false, false)), ReloadDecision::Quit);
}

#[test]
fn plain_r_reloads() {
    assert_eq!(decode(&press('r', false, false, false)), ReloadDecision::Reload);
}

#[test]
fn shifted_r_reloads() {
    assert_eq!(decode(&press('R', false, true, false)), ReloadDecision::Reload);
    assert_eq!(decode(&press('R', false, false, false)), ReloadDecision::Reload);
}

#[test]
fn ctrl_shift_c_is_idle() {
    // the quit chord requires the control modifier alone
    assert_eq!(decode(&press('c', true, true, false)), ReloadDecision::Idle);
}

#[test]
fn ctrl_r_is_idle() {
    assert_eq!(decode(&press('r', true, false, false)), ReloadDecision::Idle);
}

#[test]
fn alt_r_is_idle() {
    assert_eq!(decode(&press('r', false, false, true)), ReloadDecision::Idle);
}

#[test]
fn plain_c_is_idle() {
    assert_eq!(decode(&press('c', false, false, false)), ReloadDecision::Idle);
}

#[test]
fn unrelated_key_is_idle() {
    assert_eq!(decode(&press('q', false, false, false)), ReloadDecision::Idle);
}

#[test]
fn non_key_event_is_idle() {
    assert_eq!(decode(&InputEvent::Other), ReloadDecision::Idle);
}

#[test]
fn no_pending_input_is_idle() {
    assert_eq!(watch_decision(&None), ReloadDecision::Idle);
}

#[test]
fn pending_input_is_decoded() {
    let ev = press('r', false, false, false);
    assert_eq!(watch_decision(&Some(ev)), ReloadDecision::Reload);
}

#[test]
fn raw_mode_restored_only_by_its_enabler() {
    assert!(raw_mode_restore_needed(false));
    assert!(!raw_mode_restore_needed(true));
}

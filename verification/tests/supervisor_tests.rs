use hot::decision::ReloadDecision;
use hot::supervisor::{
    control_actions, exit_check, poll_failure_is_fatal, startup_actions, transfer_plan, Action,
    Channel, ChildStatus, ExitCheck, ReadinessEvent, ERR_TOKEN, MISSING_STATUS_EXIT_CODE,
    OUT_TOKEN, QUIT_EXIT_CODE,
};

#[test]
fn startup_spawns_then_registers() {
    // one live child, both pipes registered, before any poll
    let acts = startup_actions();
    assert_eq!(
        acts,
        vec![Action::AnnounceSpawn, Action::Spawn, Action::Register]
    );
}

#[test]
fn idle_plans_nothing() {
    assert_eq!(control_actions(ReloadDecision::Idle), vec![]);
}

#[test]
fn reload_deregisters_kills_waits_then_respawns_in_order() {
    let acts = control_actions(ReloadDecision::Reload);
    assert_eq!(
        acts,
        vec![
            Action::AnnounceReload,
            Action::Deregister,
            Action::TerminateAndWait,
            Action::AnnounceSpawn,
            Action::Spawn,
            Action::Register,
        ]
    );
}

#[test]
fn quit_exits_immediately_with_code_2() {
    let acts = control_actions(ReloadDecision::Quit);
    assert_eq!(acts, vec![Action::ExitProcess(QUIT_EXIT_CODE)]);
    assert_eq!(QUIT_EXIT_CODE, 2);
}

#[test]
fn readable_channels_are_transferred_in_event_order() {
    let evs = vec![
        ReadinessEvent { token: ERR_TOKEN, readable: true },
        ReadinessEvent { token: OUT_TOKEN, readable: true },
        ReadinessEvent { token: ERR_TOKEN, readable: true },
    ];
    assert_eq!(
        transfer_plan(&evs),
        vec![Channel::Stderr, Channel::Stdout, Channel::Stderr]
    );
}

#[test]
fn unreadable_events_are_skipped() {
    let evs = vec![
        ReadinessEvent { token: OUT_TOKEN, readable: false },
        ReadinessEvent { token: ERR_TOKEN, readable: true },
    ];
    assert_eq!(transfer_plan(&evs), vec![Channel::Stderr]);
}

#[test]
fn unknown_tokens_are_ignored() {
    let evs = vec![
        ReadinessEvent { token: 7, readable: true },
        ReadinessEvent { token: OUT_TOKEN, readable: true },
    ];
    assert_eq!(transfer_plan(&evs), vec![Channel::Stdout]);
}

#[test]
fn no_events_no_transfers() {
    assert_eq!(transfer_plan(&vec![]), vec![]);
}

#[test]
fn running_child_continues() {
    assert_eq!(exit_check(&None), ExitCheck::Continue);
}

#[test]
fn child_exit_code_is_propagated() {
    let st = Some(ChildStatus { code: Some(7) });
    assert_eq!(exit_check(&st), ExitCheck::ExitWith(7));
}

#[test]
fn missing_exit_code_becomes_11() {
    let st = Some(ChildStatus { code: None });
    assert_eq!(exit_check(&st), ExitCheck::ExitWith(MISSING_STATUS_EXIT_CODE));
    assert_eq!(MISSING_STATUS_EXIT_CODE, 11);
}

#[test]
fn idle_iteration_does_nothing() {
    // no keyboard input, a silent child that has not exited: no reload
    // work, no transfer, no exit action — only the bounded poll wait
    assert!(control_actions(ReloadDecision::Idle).is_empty());
    let evs = vec![ReadinessEvent { token: OUT_TOKEN, readable: false }];
    assert!(transfer_plan(&evs).is_empty());
    assert_eq!(exit_check(&None), ExitCheck::Continue);
}

#[test]
fn interrupted_poll_is_not_fatal() {
    assert!(!poll_failure_is_fatal(true));
    assert!(poll_failure_is_fatal(false));
}

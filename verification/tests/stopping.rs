use nine_rai::desktop::stopping::{
    HostsLook, Remark, Restored, StopAction, StopEvent, StopStep, STRANDED_CHECKS,
};
use nine_rai::desktop::supervisor::{Answer, DaemonStatus, LauncherCheck, Session, Step, Supervisor};

fn paired() -> Supervisor {
    Supervisor::load(Some(Session { control_port: 9, token: "t0ken".into() }))
}

fn launched(now: u64) -> Supervisor {
    let mut s = Supervisor::load(None);
    s.launched(Session { control_port: 9, token: "t0ken".into() }, now);
    s
}

fn acts(s: &mut Supervisor, event: StopEvent, now: u64) -> StopAction {
    let StopStep { remark, action } = s.stop_next(event, now);
    assert!(remark.is_none(), "{remark:?}");
    action
}

fn noted(step: StopStep) -> (String, StopAction) {
    match step.remark {
        Some(Remark::Note(text)) => (text, step.action),
        other => panic!("expected a note, got {other:?}"),
    }
}

fn told(failure: Option<&str>) -> StopEvent {
    StopEvent::Told { failure: failure.map(str::to_string) }
}

/// From the parting question on to the report, with a clean hosts file.
fn part(s: &mut Supervisor, answer: Answer) -> DaemonStatus {
    let silent = matches!(answer, Answer::Silence);
    assert!(matches!(acts(s, StopEvent::Cancelled, 0), StopAction::Probe));
    assert!(s.session().is_some(), "the session lasts until the last answer");
    let mut action = acts(s, StopEvent::Answered(answer), 0);
    assert_eq!(matches!(action, StopAction::Forget), silent);
    if silent {
        action = acts(s, StopEvent::Forgotten, 0);
    }
    assert!(s.session().is_none());
    assert!(matches!(action, StopAction::Look));
    let action = acts(s, StopEvent::Looked(HostsLook::Clean), 0);
    assert!(matches!(action, StopAction::FindStatus));
    let Step::Settled { status, .. } = s.status(&LauncherCheck::Running) else {
        panic!("expected a status");
    };
    match acts(s, StopEvent::Found(status), 0) {
        StopAction::Report(status) => status,
        other => panic!("expected a report, got {other:?}"),
    }
}

#[test]
fn with_no_daemon_known_only_the_hosts_file_is_seen_to() {
    let mut s = Supervisor::load(None);
    assert!(matches!(acts(&mut s, StopEvent::Begin, 0), StopAction::Look));
    match acts(&mut s, StopEvent::Looked(HostsLook::Clean), 0) {
        StopAction::Report(status) => {
            assert_eq!(status.state, "stopped");
            assert!(status.detail.is_none());
        }
        other => panic!("expected a report, got {other:?}"),
    }
}

#[test]
fn a_leftover_pairing_is_forgotten() {
    let mut s = paired();
    match acts(&mut s, StopEvent::Begin, 0) {
        StopAction::Connect { port, token } => assert_eq!((port, token.as_str()), (9, "t0ken")),
        other => panic!("expected a connection, got {other:?}"),
    }
    assert!(matches!(acts(&mut s, StopEvent::Connected, 0), StopAction::Probe));
    let action = acts(&mut s, StopEvent::Answered(Answer::Silence), 0);
    assert!(matches!(action, StopAction::Forget));
    assert!(s.session().is_none());
    assert!(matches!(acts(&mut s, StopEvent::Forgotten, 0), StopAction::Look));
    let step = s.stop_next(StopEvent::Looked(HostsLook::Unreadable("denied".into())), 0);
    match step.remark {
        Some(Remark::Warning(text)) => assert_eq!(text, "cannot read the hosts file: denied"),
        other => panic!("expected a warning, got {other:?}"),
    }
    assert!(matches!(step.action, StopAction::Report(_)));
}

#[test]
fn a_daemon_that_takes_the_word_is_waited_for() {
    let mut s = paired();
    acts(&mut s, StopEvent::Begin, 0);
    acts(&mut s, StopEvent::Connected, 0);
    assert!(matches!(
        acts(&mut s, StopEvent::Answered(Answer::Pid(7)), 0),
        StopAction::Tell
    ));
    assert!(matches!(acts(&mut s, told(None), 100), StopAction::Probe));
    for now in [100, 10_000, 20_099] {
        let action = acts(&mut s, StopEvent::Answered(Answer::Failure("x".into())), now);
        assert!(matches!(action, StopAction::Pause { millis: 150 }));
        assert!(matches!(acts(&mut s, StopEvent::Paused, now), StopAction::Probe));
    }
    let action = acts(&mut s, StopEvent::Answered(Answer::Pid(7)), 20_099);
    assert!(matches!(action, StopAction::Pause { .. }));
    assert!(matches!(acts(&mut s, StopEvent::Paused, 20_100), StopAction::Cancel));
    assert_eq!(part(&mut s, Answer::Pid(7)).state, "stopped");
}

#[test]
fn silence_ends_the_wait() {
    let mut s = launched(1_000);
    acts(&mut s, StopEvent::Begin, 30_999);
    assert!(matches!(acts(&mut s, StopEvent::Connected, 30_999), StopAction::Tell));
    assert!(matches!(acts(&mut s, told(None), 31_000), StopAction::Probe));
    let action = acts(&mut s, StopEvent::Answered(Answer::Silence), 31_000);
    assert!(matches!(action, StopAction::Cancel));
    assert!(part(&mut s, Answer::Silence).detail.is_none());
    // Past the startup window the pairing may be left over.
    let mut s = launched(1_000);
    acts(&mut s, StopEvent::Begin, 31_000);
    assert!(matches!(acts(&mut s, StopEvent::Connected, 31_000), StopAction::Probe));
}

#[test]
fn a_daemon_that_cannot_be_reached_is_given_up() {
    let mut s = launched(0);
    acts(&mut s, StopEvent::Begin, 0);
    acts(&mut s, StopEvent::Connected, 0);
    for now in [0, 250, 4_999] {
        let action = acts(&mut s, told(Some("gone")), now);
        assert!(matches!(action, StopAction::Pause { millis: 250 }));
        assert!(matches!(acts(&mut s, StopEvent::Paused, now), StopAction::Tell));
    }
    let (text, action) = noted(s.stop_next(told(Some("gone")), 5_000));
    assert_eq!(text, "stop failed: gone");
    assert!(matches!(action, StopAction::Cancel));
    let status = part(&mut s, Answer::Failure("x".into()));
    assert_eq!((status.state, status.detail.as_deref()), ("failed", Some("gone")));
    // The failure was shown, and is forgotten.
    match s.status(&LauncherCheck::Running) {
        Step::Settled { status, .. } => assert_eq!(status.state, "stopped"),
        _ => panic!("expected a status"),
    }
}

/// A stranded hosts file, up to the restoring of it.
fn stranded() -> Supervisor {
    let mut s = Supervisor::load(None);
    let mut action = acts(&mut s, StopEvent::Begin, 0);
    let mut looks = 0;
    loop {
        assert!(matches!(action, StopAction::Look));
        looks += 1;
        let pause = acts(&mut s, StopEvent::Looked(HostsLook::Redirected), 0);
        assert!(matches!(pause, StopAction::Pause { millis: 250 }));
        let step = s.stop_next(StopEvent::Paused, 0);
        if looks == STRANDED_CHECKS {
            let (text, action) = noted(step);
            assert_eq!(
                text,
                "the daemon went away without restoring the hosts file; restoring it now"
            );
            assert!(matches!(action, StopAction::Restore));
            return s;
        }
        assert!(step.remark.is_none());
        action = step.action;
    }
}

#[test]
fn a_stranded_hosts_file_is_restored_after_some_patience() {
    let mut s = stranded();
    let (text, action) = noted(s.stop_next(StopEvent::Restored(Restored::Done), 0));
    assert_eq!(text, "hosts file restored");
    assert!(matches!(action, StopAction::Report(status) if status.detail.is_none()));

    let mut s = stranded();
    let action = acts(&mut s, StopEvent::Restored(Restored::Skipped), 0);
    assert!(matches!(action, StopAction::Report(status) if status.detail.is_none()));

    let mut s = stranded();
    let failed = StopEvent::Restored(Restored::Failed("denied".into()));
    let (text, action) = noted(s.stop_next(failed, 0));
    assert_eq!(text, "failed to restore the hosts file: denied");
    let StopAction::Report(status) = action else {
        panic!("expected a report");
    };
    assert_eq!(status.state, "stopped");
    assert_eq!(
        status.detail.unwrap(),
        "the proxy is stopped, but your hosts file is still redirected and could not be restored \
(denied) — the IDE will not reach its endpoints until it is"
    );
}

#[test]
fn an_event_out_of_place_ends_it_all() {
    let mut s = paired();
    acts(&mut s, StopEvent::Begin, 0);
    assert!(matches!(acts(&mut s, StopEvent::NoClient, 0), StopAction::Abandon));
    assert!(s.session().is_some(), "the pairing is kept");
    let mut s = paired();
    acts(&mut s, StopEvent::Begin, 0);
    let action = acts(&mut s, StopEvent::Answered(Answer::Silence), 0);
    assert!(matches!(action, StopAction::Abandon));
    let found = StopEvent::Found(DaemonStatus::stopped());
    assert!(matches!(acts(&mut s, found, 0), StopAction::Abandon));
}

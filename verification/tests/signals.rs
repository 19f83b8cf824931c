use swanling::signals::{signal_response, SignalKind};

#[test]
fn hangup_is_reported_only() {
    let r = signal_response(SignalKind::Hangup);
    assert_eq!(r.message, "Received SIGHUP");
    assert_eq!(r.exit_code, None);
}

#[test]
fn shutdown_signals_exit_with_one() {
    for kind in [SignalKind::Terminate, SignalKind::Interrupt, SignalKind::Quit] {
        let r = signal_response(kind);
        assert_eq!(r.message, "Received SIGTERM SIGINT or SIGQUIT");
        assert_eq!(r.exit_code, Some(1));
    }
}

#[test]
fn terminal_stop_is_reported_only() {
    let r = signal_response(SignalKind::TerminalStop);
    assert_eq!(r.message, "Received SIGTSTP");
    assert_eq!(r.exit_code, None);
}

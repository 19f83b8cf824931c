//! How `regatta` answers the process signals it subscribes to.

use vstd::prelude::*;

verus! {

/// The signals `regatta` subscribes to. SIGKILL and SIGSTOP cannot be
/// caught.
#[derive(Debug, Clone, Copy, PartialEq, Eq, Structural)]
pub enum SignalKind {
    /// SIGHUP: the terminal went away.
    Hangup,
    /// SIGTERM: the default signal of `kill`.
    Terminate,
    /// SIGINT: Ctrl-C at a terminal.
    Interrupt,
    /// SIGQUIT: Ctrl-\ at a terminal.
    Quit,
    /// SIGTSTP: Ctrl-Z at a terminal.
    TerminalStop,
}

/// What to report on a signal, and the exit status if the process stops.
#[derive(Debug)]
pub struct SignalResponse {
    pub message: String,
    pub exit_code: Option<i32>,
}

/// The signals that shut the process down.
pub open spec fn shuts_down(kind: SignalKind) -> bool {
    kind == SignalKind::Terminate || kind == SignalKind::Interrupt || kind == SignalKind::Quit
}

/// The line reported on a signal.
pub open spec fn signal_message(kind: SignalKind) -> Seq<char> {
    match kind {
        SignalKind::Hangup => "Received SIGHUP"@,
        SignalKind::Terminate | SignalKind::Interrupt | SignalKind::Quit =>
            "Received SIGTERM SIGINT or SIGQUIT"@,
        SignalKind::TerminalStop => "Received SIGTSTP"@,
    }
}

/// The answer to `kind`: report it, and stop with status 1 on SIGTERM,
/// SIGINT and SIGQUIT only.
pub fn signal_response(kind: SignalKind) -> (response: SignalResponse)
    ensures
        response.message@ == signal_message(kind),
        response.exit_code == (if shuts_down(kind) { Some(1i32) } else { None }),
{
    match kind {
        SignalKind::Hangup => SignalResponse {
            message: String::from_str("Received SIGHUP"),
            exit_code: None,
        },
        SignalKind::Terminate | SignalKind::Interrupt | SignalKind::Quit => SignalResponse {
            message: String::from_str("Received SIGTERM SIGINT or SIGQUIT"),
            exit_code: Some(1),
        },
        SignalKind::TerminalStop => SignalResponse {
            message: String::from_str("Received SIGTSTP"),
            exit_code: None,
        },
    }
}

} // verus!

//! Where the daemon's log goes.

use vstd::prelude::*;

verus! {

/// What is logged unless the environment says otherwise.
pub const DEFAULT_LOG_FILTER: &'static str = "error,r357=debug";

/// Where the log goes.
#[derive(Debug, Clone, Copy, PartialEq, Eq)]
pub enum LogSink {
    Journald,
    Stdout,
}

/// Chooses where the log goes: to the journal, if the daemon is run by the service
/// manager and the journal can be reached, else to standard output.
pub fn choose_sink(under_systemd: bool, journald_reachable: bool) -> (sink: LogSink)
    ensures
        sink == (if under_systemd && journald_reachable {
            LogSink::Journald
        } else {
            LogSink::Stdout
        }),
{
    if under_systemd && journald_reachable {
        LogSink::Journald
    } else {
        LogSink::Stdout
    }
}

} // verus!

//! A chooser for tmux sessions, with a sidebar of recently active panes.
//!
//! Automation tells about panes that need attention by `notify` events in a log, and takes that
//! back by `clear` events. The sidebar shows what a replay of the log leaves. What is drawn,
//! what input does, what is written and how it is read back is decided here; the terminal, the
//! tmux client and the files are elsewhere.

pub mod call_laws;
pub mod chooser;
pub mod chooser_call_laws;
pub mod chooser_laws;
pub mod cli;
pub mod error;
pub mod event_log;
pub mod event_log_laws;
pub mod input;
pub mod input_laws;
pub mod json;
pub mod layout;
pub mod ledger_laws;
pub mod lines;
pub mod mouse;
pub mod notify;
pub mod order;
pub mod panes;
pub mod payload_laws;
pub mod program_call_laws;
pub mod recent_activity;
pub mod recent_laws;
pub mod replay_laws;
pub mod routing_laws;
pub mod screen;
pub mod screen_laws;
pub mod sidebar;
pub mod sidebar_laws;
pub mod state;
pub mod state_laws;
pub mod styled;
pub mod text;
pub mod text_laws;
pub mod tmux;
pub mod tmux_laws;
pub mod view_laws;

pub use crate::error::VmuxError;
pub use crate::panes::RecentPane;
pub use crate::recent_activity::RecentActivityError;
pub use crate::state::{AppState, SelectedPaneTarget};
pub use crate::tmux::{RealTmuxAdapter, TmuxAdapter, TmuxError, TmuxSession};

use crate::error::VmuxErrorView;
use crate::recent_activity::{
    clear_outcome, notify_outcome, ClearPayload, NotifyPayload, PayloadError,
};
use vstd::prelude::*;

verus! {

/// Makes the line that `vmux notify` appends to the event log.
pub fn run_notify(payload_path: &str, payload: Result<NotifyPayload, PayloadError>) -> (line: Result<
    String,
    VmuxError,
>)
    ensures
        match notify_outcome(payload_path@, payload) {
            Ok(expected) => line matches Ok(line) && line@ == expected,
            Err(expected) => line matches Err(error) && error@ == VmuxErrorView::RecentActivity(
                expected,
            ),
        },
{
    match recent_activity::run_notify(payload_path, payload) {
        Ok(line) => Ok(line),
        Err(error) => Err(VmuxError::RecentActivity(error)),
    }
}

/// Makes the line that `vmux clear` appends to the event log.
pub fn run_clear(payload_path: &str, payload: Result<ClearPayload, PayloadError>) -> (line: Result<
    String,
    VmuxError,
>)
    ensures
        match clear_outcome(payload_path@, payload) {
            Ok(expected) => line matches Ok(line) && line@ == expected,
            Err(expected) => line matches Err(error) && error@ == VmuxErrorView::RecentActivity(
                expected,
            ),
        },
{
    match recent_activity::run_clear(payload_path, payload) {
        Ok(line) => Ok(line),
        Err(error) => Err(VmuxError::RecentActivity(error)),
    }
}

} // verus!

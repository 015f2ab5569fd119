//! What can go wrong.

use crate::recent_activity::{ActivityErrorView, RecentActivityError};
use crate::text::join;
use crate::tmux::{TmuxError, TmuxErrorView};
use vstd::prelude::*;

verus! {

#[derive(Debug, PartialEq, Eq)]
pub enum VmuxError {
    Usage(String),
    Tmux(TmuxError),
    RecentActivity(RecentActivityError),
    Terminal(String),
}

pub enum VmuxErrorView {
    Usage(Seq<char>),
    Tmux(TmuxErrorView),
    RecentActivity(ActivityErrorView),
    Terminal(Seq<char>),
}

impl View for VmuxError {
    type V = VmuxErrorView;

    open spec fn view(&self) -> VmuxErrorView {
        match *self {
            VmuxError::Usage(words) => VmuxErrorView::Usage(words@),
            VmuxError::Tmux(error) => VmuxErrorView::Tmux(error@),
            VmuxError::RecentActivity(error) => VmuxErrorView::RecentActivity(error@),
            VmuxError::Terminal(words) => VmuxErrorView::Terminal(words@),
        }
    }
}

impl VmuxErrorView {
    /// The error in words.
    pub open spec fn message(self) -> Seq<char> {
        match self {
            VmuxErrorView::Usage(words) => "usage error: "@ + words,
            VmuxErrorView::Tmux(error) => "tmux error: "@ + error.message(),
            VmuxErrorView::RecentActivity(error) => "recent activity error: "@ + error.message(),
            VmuxErrorView::Terminal(words) => "terminal error: "@ + words,
        }
    }

    /// What the process exits with.
    pub open spec fn exit_code(self) -> int {
        if self is Usage {
            2
        } else {
            1
        }
    }
}

impl VmuxError {
    /// The error in words.
    pub fn message(&self) -> (message: String)
        ensures
            message@ == self@.message(),
    {
        match self {
            VmuxError::Usage(words) => join("usage error: ", words.as_str()),
            VmuxError::Tmux(error) => {
                let words = error.message();
                join("tmux error: ", words.as_str())
            },
            VmuxError::RecentActivity(error) => {
                let words = error.message();
                join("recent activity error: ", words.as_str())
            },
            VmuxError::Terminal(words) => join("terminal error: ", words.as_str()),
        }
    }

    /// What the process exits with.
    pub fn exit_code(&self) -> (code: i32)
        ensures
            code == self@.exit_code(),
    {
        match self {
            VmuxError::Usage(_) => 2,
            _ => 1,
        }
    }
}

impl From<TmuxError> for VmuxError {
    fn from(error: TmuxError) -> (wrapped: Self) {
        VmuxError::Tmux(error)
    }
}

impl vstd::std_specs::convert::FromSpecImpl<TmuxError> for VmuxError {
    open spec fn obeys_from_spec() -> bool {
        true
    }

    open spec fn from_spec(error: TmuxError) -> Self {
        VmuxError::Tmux(error)
    }
}

/// Wrong use exits with 2, and everything else that goes wrong with 1.
pub proof fn law_wrong_use_has_its_own_exit_code(
    words: Seq<char>,
    tmux: TmuxErrorView,
    activity: ActivityErrorView,
)
    ensures
        VmuxErrorView::Usage(words).exit_code() == 2,
        VmuxErrorView::Tmux(tmux).exit_code() == 1,
        VmuxErrorView::RecentActivity(activity).exit_code() == 1,
        VmuxErrorView::Terminal(words).exit_code() == 1,
{
}

/// An error in words ends with what was said of it.
pub proof fn law_errors_tell_what_was_said(words: Seq<char>)
    ensures
        VmuxErrorView::Usage(words).message() == "usage error: "@ + words,
        VmuxErrorView::Terminal(words).message() == "terminal error: "@ + words,
        VmuxErrorView::Tmux(TmuxErrorView::Io(words)).message() == "tmux error: "@ + (
        "tmux io error: "@ + words),
        VmuxErrorView::Tmux(TmuxErrorView::Utf8(words)).message() == "tmux error: "@ + (
        "tmux utf8 error: "@ + words),
        VmuxErrorView::Tmux(TmuxErrorView::TmuxFailed(words)).message() == "tmux error: "@ + (
        "tmux failed: "@ + words),
        VmuxErrorView::Tmux(TmuxErrorView::Parse(words)).message() == "tmux error: "@ + (
        "tmux parse error: "@ + words),
        VmuxErrorView::RecentActivity(ActivityErrorView::Usage(words)).message()
            == "recent activity error: "@ + ("recent activity usage error: "@ + words),
        VmuxErrorView::RecentActivity(ActivityErrorView::Io(words)).message()
            == "recent activity error: "@ + ("recent activity io error: "@ + words),
        VmuxErrorView::RecentActivity(ActivityErrorView::Json(words)).message()
            == "recent activity error: "@ + ("recent activity payload parse error: "@ + words),
        VmuxErrorView::RecentActivity(ActivityErrorView::EventLogWrite(words)).message()
            == "recent activity error: "@ + ("recent activity event log error: "@ + words),
{
}

} // verus!

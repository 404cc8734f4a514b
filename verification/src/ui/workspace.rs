//! One dual-pane session shown in a tab: a browser on either side, one of
//! which is the active one, and the title that the tab shows.

use crate::types::{opt_text, SessionId};
use vstd::prelude::*;
use vstd::string::*;

verus! {

/// The side that a pane is on.
#[derive(Debug, Clone, Copy, PartialEq, Eq, Structural)]
pub enum Side {
    Left,
    Right,
}

/// A tab's state apart from its panes.
pub struct Workspace {
    /// true = the left pane is the active (source) pane in this tab.
    pub left_active: bool,
    /// Title shown while no remote session is connected.
    pub default_title: String,
}

/// The side of the active pane.
pub open spec fn active_side(left_active: bool) -> Side {
    if left_active {
        Side::Left
    } else {
        Side::Right
    }
}

/// The side of the pane that is not active.
pub open spec fn other_side(left_active: bool) -> Side {
    if left_active {
        Side::Right
    } else {
        Side::Left
    }
}

/// The session that a tab is about.
pub open spec fn session_shown(right: Option<SessionId>, left: Option<SessionId>) -> Option<
    SessionId,
> {
    if right is Some {
        right
    } else {
        left
    }
}

/// Whether `r` is what a tab shows.
pub open spec fn is_label(
    r: TabLabel,
    default_title: Seq<char>,
    connected: bool,
    host: Option<Seq<char>>,
) -> bool {
    &&& r.remote == connected
    &&& connected ==> r.tooltip@ == r.title@ && r.title@ == (match host {
        Some(h) => h,
        None => "Remote"@,
    })
    &&& !connected ==> r.title@ == default_title && r.tooltip@.len() == 0
}

/// Commands go from the active pane to the other one: the two are never the
/// same, and making the other one active turns the way round.
pub proof fn law_panes(left_active: bool)
    ensures
        active_side(left_active) is Left <==> left_active,
        active_side(left_active) != other_side(left_active),
        active_side(!left_active) == other_side(left_active),
{
}

/// A tab is about a session whenever one of its panes is remote, and about the
/// right one's when both are. It shows the session's host, whatever its default
/// title is, and the default title without one.
pub proof fn law_tab(
    right: Option<SessionId>,
    left: Option<SessionId>,
    r: TabLabel,
    default_title: Seq<char>,
    connected: bool,
    host: Option<Seq<char>>,
)
    requires
        is_label(r, default_title, connected, host),
    ensures
        right is Some ==> session_shown(right, left) == right,
        right is None ==> session_shown(right, left) == left,
        session_shown(right, left) is None <==> right is None && left is None,
        r.remote <==> connected,
        connected && host is Some ==> r.title@ == host->0 && r.tooltip@ == host->0,
        connected && host is None ==> r.title@ == "Remote"@,
        !connected ==> r.title@ == default_title && r.tooltip@.len() == 0,
{
}

impl Workspace {
    /// A tab whose left pane is active.
    pub fn new(default_title: &str) -> (r: Self)
        ensures
            r.left_active,
            r.default_title@ == default_title@,
    {
        Workspace { left_active: true, default_title: default_title.to_owned() }
    }

    /// Makes one of the panes the active one.
    pub fn set_left_active(&mut self, left_active: bool)
        ensures
            final(self).left_active == left_active,
            final(self).default_title == old(self).default_title,
    {
        self.left_active = left_active;
    }

    /// The pane that commands start from.
    pub fn active_pane(&self) -> (r: Side)
        ensures
            r == active_side(self.left_active),
    {
        if self.left_active {
            Side::Left
        } else {
            Side::Right
        }
    }

    /// The pane that commands go to.
    pub fn inactive_pane(&self) -> (r: Side)
        ensures
            r == other_side(self.left_active),
    {
        if self.left_active {
            Side::Right
        } else {
            Side::Left
        }
    }
}

/// The session that a tab is about: the right pane is the conventional
/// session side; a remote left pane stands in so that an unusual setup still
/// shows its host.
pub fn tab_session(right: Option<SessionId>, left: Option<SessionId>) -> (r: Option<SessionId>)
    ensures
        r == session_shown(right, left),
{
    if right.is_some() {
        right
    } else {
        left
    }
}

/// What a tab shows.
#[derive(Debug)]
pub struct TabLabel {
    pub title: String,
    pub tooltip: String,
    pub remote: bool,
}

/// What a tab shows: the host of its session, where that is known, or its
/// default title without one.
pub fn tab_label(ws: &Workspace, connected: bool, host: &Option<String>) -> (r: TabLabel)
    ensures
        is_label(r, ws.default_title@, connected, opt_text(*host)),
{
    if !connected {
        return TabLabel {
            title: ws.default_title.clone(),
            tooltip: String::new(),
            remote: false,
        };
    }
    let title = match host {
        Some(h) => h.clone(),
        None => "Remote".to_owned(),
    };
    TabLabel { tooltip: title.clone(), title, remote: true }
}

} // verus!

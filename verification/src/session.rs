//! The saved browsing session: which tabs and groups are restored, and
//! which tab is shown first.
use vstd::prelude::*;
use crate::tabs::{TabGroupSnapshot, TabSnapshot};

verus! {

/// The tabs and groups of a window, and its active page, as saved.
#[derive(Debug)]
pub struct Session {
    pub tabs: Vec<TabSnapshot>,
    pub groups: Vec<TabGroupSnapshot>,
    pub active: u32,
}

/// A saved session worth restoring: one with at least one tab.
pub fn restorable(session: Session) -> (r: Option<Session>)
    ensures
        session.tabs@.len() == 0 <==> r is None,
        r matches Some(s) ==> s == session,
{
    if session.tabs.len() == 0 {
        None
    } else {
        Some(session)
    }
}

/// The page shown after a restore: the saved active page, or the last page
/// if there are fewer.
pub fn restored_active_page(active: u32, n_pages: u32) -> (page: u32)
    ensures
        page == if n_pages == 0 {
            0
        } else if active < n_pages {
            active
        } else {
            (n_pages - 1) as u32
        },
{
    let last = if n_pages == 0 {
        0
    } else {
        n_pages - 1
    };
    if active < last {
        active
    } else {
        last
    }
}

} // verus!

//! The recently-closed-tabs stack: most recent on top, oldest dropped past
//! a fixed depth. Persisting it is the shell's business.

use std::collections::VecDeque;
use vstd::prelude::*;
use crate::tabs::Tab;

verus! {

/// How many closed tabs are kept.
pub const MAX_CLOSED_TABS: usize = 25;

/// What survives of a tab once it is closed.
#[derive(Debug)]
pub struct ClosedTab {
    pub id: String,
    pub title: String,
    pub url: String,
    pub favicon: Option<String>,
    /// Epoch second of the close, for display and pruning.
    pub closed_at: u64,
}

/// The record a closing tab leaves behind.
pub open spec fn spec_closed_tab(tab: Tab, closed_at: u64) -> ClosedTab {
    ClosedTab {
        id: tab.id,
        title: tab.title,
        url: tab.url,
        favicon: tab.favicon,
        closed_at: closed_at,
    }
}

impl ClosedTab {
    /// The record for `tab`, closed at epoch second `closed_at`.
    pub fn from_tab(tab: &Tab, closed_at: u64) -> (r: ClosedTab)
        ensures
            r == spec_closed_tab(*tab, closed_at),
    {
        ClosedTab {
            id: tab.id.clone(),
            title: tab.title.clone(),
            url: tab.url.clone(),
            favicon: match &tab.favicon {
                Some(f) => Some(f.clone()),
                None => None,
            },
            closed_at: closed_at,
        }
    }
}

/// The stack of recently closed tabs: last in, first out, at most
/// `MAX_CLOSED_TABS` deep.
pub struct ClosedTabsStore {
    pub tabs: VecDeque<ClosedTab>,
}

impl ClosedTabsStore {
    /// An empty stack.
    pub fn new() -> (r: ClosedTabsStore)
        ensures
            r.tabs@.len() == 0,
    {
        ClosedTabsStore { tabs: VecDeque::new() }
    }

    /// Pushes the closing tab's record; past the fixed depth the oldest
    /// record falls out.
    pub fn archive_tab(&mut self, tab: &Tab, closed_at: u64)
        ensures
            old(self).tabs@.len() < MAX_CLOSED_TABS ==> final(self).tabs@ == old(self).tabs@.push(
                spec_closed_tab(*tab, closed_at),
            ),
            old(self).tabs@.len() >= MAX_CLOSED_TABS ==> final(self).tabs@ == old(
                self,
            ).tabs@.push(spec_closed_tab(*tab, closed_at)).drop_first(),
    {
        self.tabs.push_back(ClosedTab::from_tab(tab, closed_at));
        if self.tabs.len() > MAX_CLOSED_TABS {
            self.tabs.pop_front();
            proof {
                assert(self.tabs@ =~= old(self).tabs@.push(
                    spec_closed_tab(*tab, closed_at),
                ).drop_first());
            }
        }
    }

    /// Takes the most recently closed tab, if any.
    pub fn pop_closed_tab(&mut self) -> (r: Option<ClosedTab>)
        ensures
            old(self).tabs@.len() == 0 ==> r is None && final(self).tabs@ == old(self).tabs@,
            old(self).tabs@.len() > 0 ==> r == Some(old(self).tabs@.last()) && final(self).tabs@
                == old(self).tabs@.drop_last(),
    {
        self.tabs.pop_back()
    }

    /// How many closed tabs are held.
    pub fn closed_tab_count(&self) -> (r: usize)
        ensures
            r == self.tabs@.len(),
    {
        self.tabs.len()
    }
}

} // verus!

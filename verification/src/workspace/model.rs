//! A workspace is a list of tabs; a tab is a tree of panes.
use vstd::prelude::*;

use crate::ids::{PaneId, TabId, WorkspaceId};

verus! {

/// The panes of a tab: one pane, or two halves.
#[derive(Debug, PartialEq, Eq)]
pub enum PaneNode {
    Leaf { pane_id: PaneId },
    Split { first: Box<PaneNode>, second: Box<PaneNode> },
}

impl PaneNode {
    pub fn leaf(pane_id: PaneId) -> (node: Self)
        ensures
            node == (PaneNode::Leaf { pane_id }),
    {
        Self::Leaf { pane_id }
    }
}

#[derive(Debug, Clone, PartialEq, Eq)]
pub struct Workspace {
    pub id: WorkspaceId,
    pub tabs: Vec<TabId>,
    pub active_tab: Option<TabId>,
}

impl Workspace {
    /// A workspace without tabs.
    pub fn new(id: WorkspaceId) -> (workspace: Self)
        ensures
            workspace.id == id,
            workspace.tabs@.len() == 0,
            workspace.active_tab is None,
    {
        Self { id, tabs: Vec::new(), active_tab: None }
    }
}

#[derive(Debug, PartialEq, Eq)]
pub struct Tab {
    pub id: TabId,
    pub title: String,
    pub root: PaneNode,
    pub active_pane: PaneId,
}

impl Tab {
    /// A tab with one pane, which is active.
    pub fn new(id: TabId, title: String, initial_pane: PaneId) -> (tab: Self)
        ensures
            tab == (Tab {
                id,
                title,
                root: PaneNode::Leaf { pane_id: initial_pane },
                active_pane: initial_pane,
            }),
    {
        Self { id, title, root: PaneNode::leaf(initial_pane), active_pane: initial_pane }
    }
}

} // verus!

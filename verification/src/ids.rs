//! Identifiers of the objects a session is made of.
use vstd::prelude::*;

verus! {

/// Identifies one terminal for the lifetime of a session.
#[derive(Debug, Clone, Copy, PartialEq, Eq, PartialOrd, Ord, Hash, Structural)]
pub struct TerminalId {
    pub value: u64,
}

impl TerminalId {
    pub fn new(value: u64) -> (id: Self)
        ensures
            id.value == value,
    {
        Self { value }
    }
}

/// Identifies one pane of a tab.
#[derive(Debug, Clone, Copy, PartialEq, Eq, PartialOrd, Ord, Hash, Structural)]
pub struct PaneId {
    pub value: u64,
}

impl PaneId {
    pub fn new(value: u64) -> (id: Self)
        ensures
            id.value == value,
    {
        Self { value }
    }
}

/// Identifies one tab of a workspace.
#[derive(Debug, Clone, Copy, PartialEq, Eq, PartialOrd, Ord, Hash, Structural)]
pub struct TabId {
    pub value: u64,
}

impl TabId {
    pub fn new(value: u64) -> (id: Self)
        ensures
            id.value == value,
    {
        Self { value }
    }
}

/// Identifies one workspace.
#[derive(Debug, Clone, Copy, PartialEq, Eq, PartialOrd, Ord, Hash, Structural)]
pub struct WorkspaceId {
    pub value: u64,
}

impl WorkspaceId {
    pub fn new(value: u64) -> (id: Self)
        ensures
            id.value == value,
    {
        Self { value }
    }
}

/// Identifies one connection to a server.
#[derive(Debug, Clone, Copy, PartialEq, Eq, PartialOrd, Ord, Hash, Structural)]
pub struct ConnectionId {
    pub value: u128,
}

impl ConnectionId {
    pub fn new(value: u128) -> (id: Self)
        ensures
            id.value == value,
    {
        Self { value }
    }
}

} // verus!

//! The workspaces, tabs and panes that a server projects, and the terminals
//! in them.
use std::sync::Arc;

use vstd::prelude::*;

use crate::idmap::{
    has_id, in_order, lemma_entry, lemma_in_order, map_of, ordered, IdMap,
};
use crate::ids::{PaneId, TabId, TerminalId, WorkspaceId};
use crate::num::{clamp_usize, clamped, max_of, min_of, saturating_mul_usize};
use crate::terminal::snapshot::{
    is_row_countable, lemma_row_cost_positive, row_cost, scrollback_row_bytes, TerminalSize,
    TerminalSnapshot, MAX_SCROLLBACK_LINES,
};

verus! {

/// The terminal in a pane.
#[derive(Debug, Clone, Copy, PartialEq, Eq, Structural)]
pub struct LeafTerminal {
    pub terminal_id: TerminalId,
    pub size: TerminalSize,
}

/// The panes of a tab.
#[derive(Debug)]
pub enum PaneTreeDump {
    Leaf {
        pane_id: PaneId,
        terminal: Option<LeafTerminal>,
        /// What the terminal shows, once something of it has arrived.
        snapshot: Option<Arc<TerminalSnapshot>>,
    },
    Split { first: Box<PaneTreeDump>, second: Box<PaneTreeDump> },
}

#[derive(Debug)]
pub struct TabDump {
    pub id: TabId,
    pub title: String,
    pub tree: PaneTreeDump,
    pub active_pane: PaneId,
}

#[derive(Debug)]
pub struct WorkspaceDump {
    pub id: WorkspaceId,
    pub title: String,
    pub tabs: Vec<TabDump>,
    pub active_tab: Option<TabId>,
}

/// Whether the process of a terminal runs.
#[derive(Debug, Clone, Copy, PartialEq, Eq, Structural)]
pub enum TerminalStatus {
    Running,
    Exited { code: Option<i32> },
}

/// An agent that runs in a terminal. Its kind is its place in the list of
/// agents.
#[derive(Debug)]
pub struct AgentDump {
    pub kind: usize,
    /// What the agent is called.
    pub display_label: String,
    /// Whether agents of this kind redraw the screen in a way that would
    /// erase the scrollback.
    pub keeps_scrollback: bool,
    pub active: bool,
    pub terminal_id: TerminalId,
    pub cwd: String,
    pub status: TerminalStatus,
}

/// What a server projects.
#[derive(Debug)]
pub struct ModelSnapshot {
    pub state_revision: u64,
    pub active_workspace: Option<WorkspaceId>,
    /// The workspace that is shown.
    pub workspace: Option<WorkspaceDump>,
    pub workspaces: Vec<WorkspaceDump>,
    pub focused_pane: Option<PaneId>,
    pub agents: Vec<AgentDump>,
}

/// The terminals of some panes, the last pane first.
pub open spec fn tree_terminals(tree: PaneTreeDump) -> Seq<LeafTerminal>
    decreases tree,
{
    match tree {
        PaneTreeDump::Leaf { terminal, .. } => match terminal {
            Some(terminal) => seq![terminal],
            None => Seq::empty(),
        },
        PaneTreeDump::Split { first, second } => tree_terminals(*second) + tree_terminals(*first),
    }
}

/// The terminals of some tabs, in their order.
pub open spec fn tab_terminals(tabs: Seq<TabDump>) -> Seq<LeafTerminal>
    decreases tabs.len(),
{
    if tabs.len() == 0 {
        Seq::empty()
    } else {
        tab_terminals(tabs.drop_last()) + tree_terminals(tabs.last().tree)
    }
}

/// The terminals of some workspaces, in their order.
pub open spec fn all_terminals(workspaces: Seq<WorkspaceDump>) -> Seq<LeafTerminal>
    decreases workspaces.len(),
{
    if workspaces.len() == 0 {
        Seq::empty()
    } else {
        all_terminals(workspaces.drop_last()) + tab_terminals(workspaces.last().tabs@)
    }
}

/// The geometry of the first terminal with an id.
pub open spec fn first_size(terminals: Seq<LeafTerminal>, id: TerminalId) -> Option<TerminalSize>
    decreases terminals.len(),
{
    if terminals.len() == 0 {
        None
    } else if terminals[0].terminal_id == id {
        Some(terminals[0].size)
    } else {
        first_size(terminals.drop_first(), id)
    }
}

/// The terminal of a pane: of the first pane with the id that has one.
pub open spec fn pane_terminal(tree: PaneTreeDump, pane: PaneId) -> Option<TerminalId>
    decreases tree,
{
    match tree {
        PaneTreeDump::Leaf { pane_id, terminal, .. } => if pane_id == pane {
            match terminal {
                Some(terminal) => Some(terminal.terminal_id),
                None => None,
            }
        } else {
            None
        },
        PaneTreeDump::Split { first, second } => match pane_terminal(*first, pane) {
            Some(id) => Some(id),
            None => pane_terminal(*second, pane),
        },
    }
}

pub fn terminal_id_for_pane(tree: &PaneTreeDump, pane_id: PaneId) -> (id: Option<TerminalId>)
    ensures
        id == pane_terminal(*tree, pane_id),
    decreases tree,
{
    match tree {
        PaneTreeDump::Leaf { pane_id: leaf, terminal, .. } => if *leaf == pane_id {
            match terminal {
                Some(terminal) => Some(terminal.terminal_id),
                None => None,
            }
        } else {
            None
        },
        PaneTreeDump::Split { first, second } => match terminal_id_for_pane(first, pane_id) {
            Some(id) => Some(id),
            None => terminal_id_for_pane(second, pane_id),
        },
    }
}

proof fn lemma_first_size_concat(front: Seq<LeafTerminal>, back: Seq<LeafTerminal>, id: TerminalId)
    ensures
        first_size(front + back, id) == match first_size(front, id) {
            Some(size) => Some(size),
            None => first_size(back, id),
        },
    decreases front.len(),
{
    if front.len() == 0 {
        assert(front + back =~= back);
    } else {
        assert((front + back).drop_first() =~= front.drop_first() + back);
        lemma_first_size_concat(front.drop_first(), back, id);
    }
}

fn size_in_tree(tree: &PaneTreeDump, id: TerminalId) -> (size: Option<TerminalSize>)
    ensures
        size == first_size(tree_terminals(*tree), id),
    decreases tree,
{
    match tree {
        PaneTreeDump::Leaf { terminal, .. } => match terminal {
            Some(terminal) => {
                reveal_with_fuel(first_size, 2);
                if terminal.terminal_id == id {
                    Some(terminal.size)
                } else {
                    None
                }
            },
            None => None,
        },
        PaneTreeDump::Split { first, second } => {
            proof {
                lemma_first_size_concat(tree_terminals(**second), tree_terminals(**first), id);
            }
            match size_in_tree(second, id) {
                Some(size) => Some(size),
                None => size_in_tree(first, id),
            }
        },
    }
}

fn size_in_tabs(tabs: &Vec<TabDump>, id: TerminalId) -> (size: Option<TerminalSize>)
    ensures
        size == first_size(tab_terminals(tabs@), id),
{
    let mut i: usize = 0;
    assert(tabs@.take(0) =~= Seq::empty());
    while i < tabs.len()
        invariant
            i <= tabs@.len(),
            first_size(tab_terminals(tabs@.take(i as int)), id) is None,
        decreases tabs@.len() - i,
    {
        let ghost front = tab_terminals(tabs@.take(i as int));
        let ghost back = tree_terminals(tabs@[i as int].tree);
        proof {
            assert(tabs@.take(i + 1).drop_last() =~= tabs@.take(i as int));
            lemma_first_size_concat(front, back, id);
        }
        if let Some(size) = size_in_tree(&tabs[i].tree, id) {
            proof {
                lemma_tabs_prefix(tabs@, i + 1, id);
            }
            return Some(size);
        }
        i = i + 1;
    }
    assert(tabs@.take(i as int) =~= tabs@);
    None
}

/// A terminal that is found in the first tabs is found there first.
proof fn lemma_tabs_prefix(tabs: Seq<TabDump>, end: int, id: TerminalId)
    requires
        0 <= end <= tabs.len(),
        first_size(tab_terminals(tabs.take(end)), id) is Some,
    ensures
        first_size(tab_terminals(tabs), id) == first_size(tab_terminals(tabs.take(end)), id),
    decreases tabs.len(),
{
    if end == tabs.len() {
        assert(tabs.take(end) =~= tabs);
    } else {
        assert(tabs.drop_last().take(end) =~= tabs.take(end));
        lemma_tabs_prefix(tabs.drop_last(), end, id);
        lemma_first_size_concat(
            tab_terminals(tabs.drop_last()),
            tree_terminals(tabs.last().tree),
            id,
        );
    }
}

proof fn lemma_workspaces_prefix(workspaces: Seq<WorkspaceDump>, end: int, id: TerminalId)
    requires
        0 <= end <= workspaces.len(),
        first_size(all_terminals(workspaces.take(end)), id) is Some,
    ensures
        first_size(all_terminals(workspaces), id) == first_size(
            all_terminals(workspaces.take(end)),
            id,
        ),
    decreases workspaces.len(),
{
    if end == workspaces.len() {
        assert(workspaces.take(end) =~= workspaces);
    } else {
        assert(workspaces.drop_last().take(end) =~= workspaces.take(end));
        lemma_workspaces_prefix(workspaces.drop_last(), end, id);
        lemma_first_size_concat(
            all_terminals(workspaces.drop_last()),
            tab_terminals(workspaces.last().tabs@),
            id,
        );
    }
}

/// The configured size of one terminal inside a projected state dump.
pub fn terminal_size_in_snapshot(snapshot: &ModelSnapshot, terminal_id: TerminalId) -> (size:
    Option<TerminalSize>)
    ensures
        size == first_size(all_terminals(snapshot.workspaces@), terminal_id),
{
    let ghost all = snapshot.workspaces@;
    let mut i: usize = 0;
    assert(all.take(0) =~= Seq::empty());
    while i < snapshot.workspaces.len()
        invariant
            all == snapshot.workspaces@,
            i <= all.len(),
            first_size(all_terminals(all.take(i as int)), terminal_id) is None,
        decreases all.len() - i,
    {
        proof {
            assert(all.take(i + 1).drop_last() =~= all.take(i as int));
            lemma_first_size_concat(
                all_terminals(all.take(i as int)),
                tab_terminals(all[i as int].tabs@),
                terminal_id,
            );
        }
        if let Some(size) = size_in_tabs(&snapshot.workspaces[i].tabs, terminal_id) {
            proof {
                lemma_workspaces_prefix(all, i + 1, terminal_id);
            }
            return Some(size);
        }
        i = i + 1;
    }
    assert(all.take(i as int) =~= all);
    None
}

/// A terminal with the id is among some.
pub open spec fn lists(terminals: Seq<LeafTerminal>, id: u64) -> bool {
    exists|i: int| 0 <= i < terminals.len() && (#[trigger] terminals[i]).terminal_id.value == id
}

/// The ids of some terminals, each once.
pub open spec fn id_map(terminals: Seq<LeafTerminal>) -> Map<u64, ()> {
    Map::new(|id: u64| lists(terminals, id), |id: u64| ())
}

/// The ids of some terminals in their order, each once.
pub open spec fn sorted_ids(terminals: Seq<LeafTerminal>) -> Seq<(u64, ())> {
    in_order(id_map(terminals))
}

proof fn lemma_lists_concat(front: Seq<LeafTerminal>, back: Seq<LeafTerminal>)
    ensures
        forall|id: u64| #[trigger]
            lists(front + back, id) == (lists(front, id) || lists(back, id)),
{
    assert forall|id: u64| #[trigger]
        lists(front + back, id) == (lists(front, id) || lists(back, id)) by {
        let both = front + back;
        if lists(front, id) {
            let i = choose|i: int|
                0 <= i < front.len() && (#[trigger] front[i]).terminal_id.value == id;
            assert(both[i].terminal_id.value == id);
        }
        if lists(back, id) {
            let i = choose|i: int|
                0 <= i < back.len() && (#[trigger] back[i]).terminal_id.value == id;
            assert(both[front.len() + i].terminal_id.value == id);
        }
        if lists(both, id) {
            let i = choose|i: int|
                0 <= i < both.len() && (#[trigger] both[i]).terminal_id.value == id;
            if i < front.len() {
                assert(front[i].terminal_id.value == id);
            } else {
                assert(back[i - front.len()].terminal_id.value == id);
            }
        }
    }
}

fn collect_tree(tree: &PaneTreeDump, ids: &mut IdMap<()>)
    ensures
        forall|id: u64| #[trigger]
            final(ids)@.contains_key(id) == (old(ids)@.contains_key(id) || lists(
                tree_terminals(*tree),
                id,
            )),
    decreases tree,
{
    match tree {
        PaneTreeDump::Leaf { terminal, .. } => {
            if let Some(terminal) = terminal {
                let ghost one = tree_terminals(*tree);
                let _ = ids.insert(terminal.terminal_id.value, ());
                assert(one[0] == *terminal);
            }
        },
        PaneTreeDump::Split { first, second } => {
            proof {
                lemma_lists_concat(tree_terminals(**second), tree_terminals(**first));
            }
            collect_tree(second, ids);
            collect_tree(first, ids);
        },
    }
}

fn collect_tabs(tabs: &Vec<TabDump>, ids: &mut IdMap<()>)
    ensures
        forall|id: u64| #[trigger]
            final(ids)@.contains_key(id) == (old(ids)@.contains_key(id) || lists(
                tab_terminals(tabs@),
                id,
            )),
{
    let mut i: usize = 0;
    assert(tabs@.take(0) =~= Seq::empty());
    while i < tabs.len()
        invariant
            i <= tabs@.len(),
            forall|id: u64| #[trigger]
                ids@.contains_key(id) == (old(ids)@.contains_key(id) || lists(
                    tab_terminals(tabs@.take(i as int)),
                    id,
                )),
        decreases tabs@.len() - i,
    {
        proof {
            assert(tabs@.take(i + 1).drop_last() =~= tabs@.take(i as int));
            lemma_lists_concat(
                tab_terminals(tabs@.take(i as int)),
                tree_terminals(tabs@[i as int].tree),
            );
        }
        collect_tree(&tabs[i].tree, ids);
        i = i + 1;
    }
    assert(tabs@.take(i as int) =~= tabs@);
}

/// All terminal identities projected by a control-plane snapshot. Stream
/// attachment is eager so hidden terminals keep their local emulator current.
pub fn terminal_ids_in_snapshot(snapshot: &ModelSnapshot) -> (ids: Vec<TerminalId>)
    ensures
        ({
            let sorted = sorted_ids(all_terminals(snapshot.workspaces@));
            &&& ids@.len() == sorted.len()
            &&& forall|i: int| 0 <= i < ids@.len() ==> (#[trigger] ids@[i]).value == sorted[i].0
        }),
        forall|i: int, j: int| 0 <= i < j < ids@.len() ==> ids@[i].value < ids@[j].value,
        forall|id: u64|
            lists(all_terminals(snapshot.workspaces@), id) == exists|i: int|
                0 <= i < ids@.len() && (#[trigger] ids@[i]).value == id,
{
    let ghost all = snapshot.workspaces@;
    let mut found: IdMap<()> = IdMap::new();
    let mut i: usize = 0;
    assert(all.take(0) =~= Seq::empty());
    while i < snapshot.workspaces.len()
        invariant
            all == snapshot.workspaces@,
            i <= all.len(),
            forall|id: u64| #[trigger]
                found@.contains_key(id) == lists(all_terminals(all.take(i as int)), id),
        decreases all.len() - i,
    {
        proof {
            assert(all.take(i + 1).drop_last() =~= all.take(i as int));
            lemma_lists_concat(
                all_terminals(all.take(i as int)),
                tab_terminals(all[i as int].tabs@),
            );
        }
        collect_tabs(&snapshot.workspaces[i].tabs, &mut found);
        i = i + 1;
    }
    assert(all.take(i as int) =~= all);
    let ghost terminals = all_terminals(all);
    let walked: Vec<u64> = found.ids();
    let count: usize = walked.len();
    let ghost entries = found.entries();
    proof {
        assert(found@ =~= id_map(terminals));
        lemma_in_order(entries);
    }
    let mut ids: Vec<TerminalId> = Vec::new();
    let mut k: usize = 0;
    while k < count
        invariant
            count == entries.len() == walked@.len(),
            forall|j: int| 0 <= j < count ==> (#[trigger] walked@[j]) == entries[j].0,
            k <= count,
            ids@.len() == k,
            forall|j: int| 0 <= j < k ==> (#[trigger] ids@[j]).value == entries[j].0,
        decreases count - k,
    {
        ids.push(TerminalId::new(walked[k]));
        k = k + 1;
    }
    assert forall|id: u64|
        lists(terminals, id) == exists|i: int|
            0 <= i < ids@.len() && (#[trigger] ids@[i]).value == id by {
        assert(found@.contains_key(id) == lists(terminals, id));
        if lists(terminals, id) {
            let j = choose|j: int| 0 <= j < entries.len() && (#[trigger] entries[j]).0 == id;
            assert(ids@[j].value == id);
        }
        if exists|i: int| 0 <= i < ids@.len() && (#[trigger] ids@[i]).value == id {
            let j = choose|i: int| 0 <= i < ids@.len() && (#[trigger] ids@[i]).value == id;
            assert(entries[j].0 == id);
        }
    }
    ids
}

/// The first workspace with an id.
pub open spec fn workspace_at(workspaces: Seq<WorkspaceDump>, id: WorkspaceId) -> Option<int>
    decreases workspaces.len(),
{
    if workspaces.len() == 0 {
        None
    } else {
        match workspace_at(workspaces.drop_last(), id) {
            Some(at) => Some(at),
            None => if workspaces.last().id == id {
                Some(workspaces.len() - 1)
            } else {
                None
            },
        }
    }
}

/// The first tab with an id.
pub open spec fn tab_at(tabs: Seq<TabDump>, id: TabId) -> Option<int>
    decreases tabs.len(),
{
    if tabs.len() == 0 {
        None
    } else {
        match tab_at(tabs.drop_last(), id) {
            Some(at) => Some(at),
            None => if tabs.last().id == id {
                Some(tabs.len() - 1)
            } else {
                None
            },
        }
    }
}

proof fn lemma_workspace_at(workspaces: Seq<WorkspaceDump>, id: WorkspaceId, at: int)
    requires
        0 <= at < workspaces.len(),
        workspaces[at].id == id,
        forall|i: int| 0 <= i < at ==> (#[trigger] workspaces[i]).id != id,
    ensures
        workspace_at(workspaces, id) == Some(at),
    decreases workspaces.len(),
{
    if at < workspaces.len() - 1 {
        lemma_workspace_at(workspaces.drop_last(), id, at);
    } else {
        lemma_no_workspace(workspaces.drop_last(), id);
    }
}

proof fn lemma_no_workspace(workspaces: Seq<WorkspaceDump>, id: WorkspaceId)
    requires
        forall|i: int| 0 <= i < workspaces.len() ==> (#[trigger] workspaces[i]).id != id,
    ensures
        workspace_at(workspaces, id) is None,
    decreases workspaces.len(),
{
    if workspaces.len() > 0 {
        lemma_no_workspace(workspaces.drop_last(), id);
    }
}

proof fn lemma_tab_at(tabs: Seq<TabDump>, id: TabId, at: int)
    requires
        0 <= at < tabs.len(),
        tabs[at].id == id,
        forall|i: int| 0 <= i < at ==> (#[trigger] tabs[i]).id != id,
    ensures
        tab_at(tabs, id) == Some(at),
    decreases tabs.len(),
{
    if at < tabs.len() - 1 {
        lemma_tab_at(tabs.drop_last(), id, at);
    } else {
        lemma_no_tab(tabs.drop_last(), id);
    }
}

proof fn lemma_no_tab(tabs: Seq<TabDump>, id: TabId)
    requires
        forall|i: int| 0 <= i < tabs.len() ==> (#[trigger] tabs[i]).id != id,
    ensures
        tab_at(tabs, id) is None,
    decreases tabs.len(),
{
    if tabs.len() > 0 {
        lemma_no_tab(tabs.drop_last(), id);
    }
}

/// Finds a workspace by its id.
pub fn find_workspace(workspaces: &Vec<WorkspaceDump>, id: WorkspaceId) -> (at: Option<usize>)
    ensures
        match at {
            Some(at) => at < workspaces@.len() && workspace_at(workspaces@, id) == Some(at as int),
            None => workspace_at(workspaces@, id) is None,
        },
{
    let mut at: usize = 0;
    while at < workspaces.len()
        invariant
            at <= workspaces@.len(),
            forall|i: int| 0 <= i < at ==> (#[trigger] workspaces@[i]).id != id,
        decreases workspaces@.len() - at,
    {
        if workspaces[at].id == id {
            proof {
                lemma_workspace_at(workspaces@, id, at as int);
            }
            return Some(at);
        }
        at = at + 1;
    }
    proof {
        lemma_no_workspace(workspaces@, id);
    }
    None
}

/// Finds a tab by its id.
pub fn find_tab(tabs: &Vec<TabDump>, id: TabId) -> (at: Option<usize>)
    ensures
        match at {
            Some(at) => at < tabs@.len() && tab_at(tabs@, id) == Some(at as int),
            None => tab_at(tabs@, id) is None,
        },
{
    let mut at: usize = 0;
    while at < tabs.len()
        invariant
            at <= tabs@.len(),
            forall|i: int| 0 <= i < at ==> (#[trigger] tabs@[i]).id != id,
        decreases tabs@.len() - at,
    {
        if tabs[at].id == id {
            proof {
                lemma_tab_at(tabs@, id, at as int);
            }
            return Some(at);
        }
        at = at + 1;
    }
    proof {
        lemma_no_tab(tabs@, id);
    }
    None
}

/// The terminal in the active pane of the active tab of the active workspace.
pub open spec fn focused_terminal(snapshot: ModelSnapshot) -> Option<TerminalId> {
    match snapshot.active_workspace {
        Some(workspace_id) => match workspace_at(snapshot.workspaces@, workspace_id) {
            Some(at) => {
                let workspace = snapshot.workspaces@[at];
                match workspace.active_tab {
                    Some(tab_id) => match tab_at(workspace.tabs@, tab_id) {
                        Some(at) => pane_terminal(
                            workspace.tabs@[at].tree,
                            workspace.tabs@[at].active_pane,
                        ),
                        None => None,
                    },
                    None => None,
                }
            },
            None => None,
        },
        None => None,
    }
}

pub fn terminal_is_focused(snapshot: &ModelSnapshot, terminal_id: TerminalId) -> (focused: bool)
    ensures
        focused == (focused_terminal(*snapshot) == Some(terminal_id)),
{
    if let Some(workspace_id) = snapshot.active_workspace {
        if let Some(at) = find_workspace(&snapshot.workspaces, workspace_id) {
            let workspace: &WorkspaceDump = &snapshot.workspaces[at];
            if let Some(tab_id) = workspace.active_tab {
                if let Some(at) = find_tab(&workspace.tabs, tab_id) {
                    let tab: &TabDump = &workspace.tabs[at];
                    if let Some(id) = terminal_id_for_pane(&tab.tree, tab.active_pane) {
                        return id == terminal_id;
                    }
                }
            }
        }
    }
    false
}

/// A running agent in the terminal redraws the screen in a way that would
/// erase the scrollback.
pub open spec fn is_protected(agents: Seq<AgentDump>, id: TerminalId) -> bool {
    exists|i: int|
        0 <= i < agents.len() && (#[trigger] agents[i]).terminal_id == id
            && agents[i].keeps_scrollback && agents[i].status == TerminalStatus::Running
}

pub fn terminal_scrollback_protected(snapshot: &ModelSnapshot, terminal_id: TerminalId) -> (
    protected: bool)
    ensures
        protected == is_protected(snapshot.agents@, terminal_id),
{
    let mut i: usize = 0;
    while i < snapshot.agents.len()
        invariant
            i <= snapshot.agents@.len(),
            forall|k: int|
                0 <= k < i ==> !((#[trigger] snapshot.agents@[k]).terminal_id == terminal_id
                    && snapshot.agents@[k].keeps_scrollback && snapshot.agents@[k].status
                    == TerminalStatus::Running),
        decreases snapshot.agents@.len() - i,
    {
        let agent: &AgentDump = &snapshot.agents[i];
        let running: bool = matches!(agent.status, TerminalStatus::Running);
        if agent.terminal_id == terminal_id && agent.keeps_scrollback && running {
            return true;
        }
        i = i + 1;
    }
    false
}

/// The lines that a share of a budget buys.
pub open spec fn scaled_lines(lines: int, bytes: int, total: int, budget: int) -> int {
    let upper = clamped(lines, 1, MAX_SCROLLBACK_LINES as int);
    if bytes == 0 || total <= max_of(budget, 1) {
        upper
    } else {
        clamped(
            min_of(upper * max_of(budget, 1), usize::MAX as int) / max_of(total, 1),
            1,
            upper,
        )
    }
}

pub fn scale_scrollback_lines(
    selected_lines: usize,
    selected_bytes: usize,
    total_bytes: usize,
    max_total_bytes: usize,
) -> (lines: usize)
    ensures
        lines == scaled_lines(
            selected_lines as int,
            selected_bytes as int,
            total_bytes as int,
            max_total_bytes as int,
        ),
{
    let upper: usize = clamp_usize(selected_lines, 1, MAX_SCROLLBACK_LINES);
    if selected_bytes == 0 || total_bytes <= max_total_bytes.max(1) {
        return upper;
    }
    // selected_bytes/total_bytes is the terminal's share of the budget. It
    // must scale the requested *line count*, not be returned as a byte count.
    let scaled: usize = saturating_mul_usize(upper, max_total_bytes.max(1)) / total_bytes.max(1);
    clamp_usize(scaled, 1, upper)
}

/// The lines that a terminal asks for.
pub open spec fn asked_lines(snapshot: ModelSnapshot, id: TerminalId, focused: int, inactive: int) -> int {
    clamped(
        max_of(
            if focused_terminal(snapshot) == Some(id) {
                focused
            } else {
                inactive
            },
            1,
        ),
        1,
        MAX_SCROLLBACK_LINES as int,
    )
}

/// The bytes that a terminal asks for: its lines at the width of its rows.
pub open spec fn asked_bytes(snapshot: ModelSnapshot, id: TerminalId, focused: int, inactive: int) -> int {
    match first_size(all_terminals(snapshot.workspaces@), id) {
        Some(size) => min_of(
            asked_lines(snapshot, id, focused, inactive) * row_cost(
                max_of(size.columns as int, 1),
            ),
            usize::MAX as int,
        ),
        None => 0,
    }
}

/// The bytes that some terminals ask for together, as far as they can be
/// counted.
pub open spec fn asked_in_all(
    snapshot: ModelSnapshot,
    ids: Seq<(u64, ())>,
    focused: int,
    inactive: int,
) -> int
    decreases ids.len(),
{
    if ids.len() == 0 {
        0
    } else {
        min_of(
            asked_in_all(snapshot, ids.drop_last(), focused, inactive) + asked_bytes(
                snapshot,
                TerminalId { value: ids.last().0 },
                focused,
                inactive,
            ),
            usize::MAX as int,
        )
    }
}

/// The lines that a terminal gets: those it asks for, or its share where all
/// terminals together ask for more than the budget.
pub open spec fn granted_lines(
    snapshot: ModelSnapshot,
    id: TerminalId,
    focused: int,
    inactive: int,
    budget: int,
) -> int {
    let terminals = all_terminals(snapshot.workspaces@);
    let listed = lists(terminals, id.value);
    let bytes = if listed {
        asked_bytes(snapshot, id, focused, inactive)
    } else {
        0
    };
    let lines = if listed {
        asked_lines(snapshot, id, focused, inactive)
    } else {
        max_of(inactive, 1)
    };
    let total = asked_in_all(snapshot, sorted_ids(terminals), focused, inactive);
    if bytes == 0 || total <= max_of(budget, 1) {
        lines
    } else {
        scaled_lines(lines, bytes, total, budget)
    }
}

proof fn lemma_listed_has_size(terminals: Seq<LeafTerminal>, id: TerminalId)
    ensures
        lists(terminals, id.value) == first_size(terminals, id) is Some,
    decreases terminals.len(),
{
    if terminals.len() > 0 {
        let rest = terminals.drop_first();
        lemma_listed_has_size(rest, id);
        if lists(rest, id.value) {
            let i = choose|i: int|
                0 <= i < rest.len() && (#[trigger] rest[i]).terminal_id.value == id.value;
            assert(terminals[i + 1].terminal_id.value == id.value);
        }
        if lists(terminals, id.value) && terminals[0].terminal_id != id {
            let i = choose|i: int|
                0 <= i < terminals.len() && (#[trigger] terminals[i]).terminal_id.value
                    == id.value;
            assert(terminals[0].terminal_id.value != id.value);
            assert(rest[i - 1].terminal_id.value == id.value);
        }
        if terminals[0].terminal_id == id {
            assert(lists(terminals, id.value));
        }
    }
}

/// The cost of a row of each terminal can be counted.
pub open spec fn rows_countable(snapshot: ModelSnapshot) -> bool {
    forall|id: TerminalId|
        match #[trigger] first_size(all_terminals(snapshot.workspaces@), id) {
            Some(size) => row_cost(max_of(size.columns as int, 1)) <= usize::MAX,
            None => true,
        }
}

/// Whether the cost of a row of each terminal can be counted.
pub fn are_rows_countable(snapshot: &ModelSnapshot) -> (countable: bool)
    ensures
        countable == rows_countable(*snapshot),
{
    let ids: Vec<TerminalId> = terminal_ids_in_snapshot(snapshot);
    let ghost terminals = all_terminals(snapshot.workspaces@);
    let mut i: usize = 0;
    while i < ids.len()
        invariant
            terminals == all_terminals(snapshot.workspaces@),
            i <= ids@.len(),
            forall|k: int|
                0 <= k < i ==> match first_size(terminals, #[trigger] ids@[k]) {
                    Some(size) => row_cost(max_of(size.columns as int, 1)) <= usize::MAX,
                    None => true,
                },
            forall|id: u64|
                lists(terminals, id) == exists|k: int|
                    0 <= k < ids@.len() && (#[trigger] ids@[k]).value == id,
        decreases ids@.len() - i,
    {
        if let Some(size) = terminal_size_in_snapshot(snapshot, ids[i]) {
            if !is_row_countable(size.columns.max(1)) {
                return false;
            }
        }
        i = i + 1;
    }
    proof {
        assert forall|id: TerminalId|
            match #[trigger] first_size(terminals, id) {
                Some(size) => row_cost(max_of(size.columns as int, 1)) <= usize::MAX,
                None => true,
            } by {
            lemma_listed_has_size(terminals, id);
            if lists(terminals, id.value) {
                let k = choose|k: int| 0 <= k < ids@.len() && (#[trigger] ids@[k]).value == id.value;
                assert(ids@[k] == id);
            }
        }
    }
    true
}

/// Computes the per-terminal history limit from focus state and the aggregate
/// byte budget. Rows are weighted by their actual cell width so a wide terminal
/// cannot silently consume the whole GUI history budget.
pub fn terminal_scrollback_lines(
    snapshot: &ModelSnapshot,
    terminal_id: TerminalId,
    focused_lines: usize,
    inactive_lines: usize,
    max_total_bytes: usize,
) -> (lines: usize)
    requires
        rows_countable(*snapshot),
    ensures
        lines == granted_lines(
            *snapshot,
            terminal_id,
            focused_lines as int,
            inactive_lines as int,
            max_total_bytes as int,
        ),
{
    let ids: Vec<TerminalId> = terminal_ids_in_snapshot(snapshot);
    let ghost terminals = all_terminals(snapshot.workspaces@);
    let ghost sorted = sorted_ids(terminals);
    let mut total_bytes: usize = 0;
    let mut selected_bytes: usize = 0;
    let mut selected_lines: usize = inactive_lines.max(1);
    let mut i: usize = 0;
    let ghost mut met = false;
    assert(sorted.take(0) =~= Seq::empty());
    while i < ids.len()
        invariant
            terminals == all_terminals(snapshot.workspaces@),
            sorted == sorted_ids(terminals),
            rows_countable(*snapshot),
            ids@.len() == sorted.len(),
            forall|k: int| 0 <= k < ids@.len() ==> (#[trigger] ids@[k]).value == sorted[k].0,
            forall|id: u64|
                lists(terminals, id) == exists|k: int|
                    0 <= k < ids@.len() && (#[trigger] ids@[k]).value == id,
            i <= ids@.len(),
            total_bytes == asked_in_all(
                *snapshot,
                sorted.take(i as int),
                focused_lines as int,
                inactive_lines as int,
            ),
            met == exists|k: int| 0 <= k < i && (#[trigger] ids@[k]).value == terminal_id.value,
            selected_bytes == if met {
                asked_bytes(*snapshot, terminal_id, focused_lines as int, inactive_lines as int)
            } else {
                0
            },
            selected_lines == if met {
                asked_lines(*snapshot, terminal_id, focused_lines as int, inactive_lines as int)
            } else {
                max_of(inactive_lines as int, 1)
            },
        decreases ids@.len() - i,
    {
        let id: TerminalId = ids[i];
        proof {
            assert(sorted.take(i + 1).drop_last() =~= sorted.take(i as int));
            assert(lists(terminals, id.value));
            lemma_listed_has_size(terminals, id);
        }
        if let Some(size) = terminal_size_in_snapshot(snapshot, id) {
            let asked: usize = if terminal_is_focused(snapshot, id) {
                focused_lines.max(1)
            } else {
                inactive_lines.max(1)
            };
            let lines: usize = clamp_usize(asked, 1, MAX_SCROLLBACK_LINES);
            let row_bytes: usize = scrollback_row_bytes(size.columns.max(1));
            let bytes: usize = saturating_mul_usize(lines, row_bytes);
            total_bytes = total_bytes.saturating_add(bytes);
            if id == terminal_id {
                selected_bytes = bytes;
                selected_lines = lines;
            }
        }
        proof {
            if id == terminal_id {
                met = true;
                assert(ids@[i as int].value == terminal_id.value);
            }
        }
        i = i + 1;
    }
    assert(sorted.take(i as int) =~= sorted);
    assert(met == lists(terminals, terminal_id.value));
    if selected_bytes == 0 || total_bytes <= max_total_bytes.max(1) {
        return selected_lines;
    }
    scale_scrollback_lines(selected_lines, selected_bytes, total_bytes, max_total_bytes)
}

/// A terminal always gets at least one line, and never more than it asks for.
pub proof fn granted_lines_are_bounded(lines: int, bytes: int, total: int, budget: int)
    ensures
        1 <= scaled_lines(lines, bytes, total, budget) <= clamped(
            lines,
            1,
            MAX_SCROLLBACK_LINES as int,
        ),
{
}

/// Where the budget is too small, a terminal with more than one line keeps to
/// its share: its lines are to those it asks for as the budget is to what all
/// ask for, or fewer.
pub proof fn a_share_stays_in_proportion(lines: int, bytes: int, total: int, budget: int)
    requires
        bytes != 0,
        total > max_of(budget, 1),
    ensures
        scaled_lines(lines, bytes, total, budget) == 1 || scaled_lines(lines, bytes, total, budget)
            * total <= clamped(lines, 1, MAX_SCROLLBACK_LINES as int) * max_of(budget, 1),
{
    let upper = clamped(lines, 1, MAX_SCROLLBACK_LINES as int);
    let product = min_of(upper * max_of(budget, 1), usize::MAX as int);
    let scaled = product / total;
    assert(upper * max_of(budget, 1) >= 0) by (nonlinear_arith)
        requires
            upper >= 1,
            max_of(budget, 1) >= 1,
    ;
    assert(scaled * total <= product) by (nonlinear_arith)
        requires
            scaled == product / total,
            total > 0,
            product >= 0,
    ;
    if scaled > upper {
        assert(upper * total <= scaled * total) by (nonlinear_arith)
            requires
                upper <= scaled,
                total > 0,
        ;
    }
}

/// The bytes that a terminal asks for, however many they are.
pub open spec fn exact_bytes(snapshot: ModelSnapshot, id: TerminalId, focused: int, inactive: int) -> int {
    match first_size(all_terminals(snapshot.workspaces@), id) {
        Some(size) => asked_lines(snapshot, id, focused, inactive) * row_cost(
            max_of(size.columns as int, 1),
        ),
        None => 0,
    }
}

/// The bytes that some terminals ask for together, however many they are.
pub open spec fn exact_in_all(
    snapshot: ModelSnapshot,
    ids: Seq<(u64, ())>,
    focused: int,
    inactive: int,
) -> int
    decreases ids.len(),
{
    if ids.len() == 0 {
        0
    } else {
        exact_in_all(snapshot, ids.drop_last(), focused, inactive) + exact_bytes(
            snapshot,
            TerminalId { value: ids.last().0 },
            focused,
            inactive,
        )
    }
}

/// The bytes of the lines that a terminal gets. A single line is given to
/// everyone and is not counted.
pub open spec fn granted_bytes(
    snapshot: ModelSnapshot,
    id: TerminalId,
    focused: int,
    inactive: int,
    budget: int,
) -> int {
    let lines = granted_lines(snapshot, id, focused, inactive, budget);
    match first_size(all_terminals(snapshot.workspaces@), id) {
        Some(size) => if lines > 1 {
            lines * row_cost(max_of(size.columns as int, 1))
        } else {
            0
        },
        None => 0,
    }
}

/// The bytes of the lines that some terminals get together.
pub open spec fn granted_in_all(
    snapshot: ModelSnapshot,
    ids: Seq<(u64, ())>,
    focused: int,
    inactive: int,
    budget: int,
) -> int
    decreases ids.len(),
{
    if ids.len() == 0 {
        0
    } else {
        granted_in_all(snapshot, ids.drop_last(), focused, inactive, budget) + granted_bytes(
            snapshot,
            TerminalId { value: ids.last().0 },
            focused,
            inactive,
            budget,
        )
    }
}

proof fn lemma_exact_bytes(snapshot: ModelSnapshot, id: TerminalId, focused: int, inactive: int)
    ensures
        exact_bytes(snapshot, id, focused, inactive) >= 0,
{
    if let Some(size) = first_size(all_terminals(snapshot.workspaces@), id) {
        lemma_row_cost_positive(max_of(size.columns as int, 1));
        let lines = asked_lines(snapshot, id, focused, inactive);
        let row = row_cost(max_of(size.columns as int, 1));
        assert(lines * row >= 0) by (nonlinear_arith)
            requires
                lines >= 1,
                row > 0,
        ;
    }
}

/// What is asked for is counted exactly, as far as it can be counted.
proof fn lemma_counted(
    snapshot: ModelSnapshot,
    ids: Seq<(u64, ())>,
    focused: int,
    inactive: int,
)
    ensures
        0 <= exact_in_all(snapshot, ids, focused, inactive),
        asked_in_all(snapshot, ids, focused, inactive) == min_of(
            exact_in_all(snapshot, ids, focused, inactive),
            usize::MAX as int,
        ),
    decreases ids.len(),
{
    if ids.len() > 0 {
        let id = TerminalId { value: ids.last().0 };
        lemma_exact_bytes(snapshot, id, focused, inactive);
        lemma_counted(snapshot, ids.drop_last(), focused, inactive);
    }
}

/// Where more is asked for than can be counted, any smaller budget gives a
/// single line to everyone.
proof fn lemma_granted_of_too_much(
    snapshot: ModelSnapshot,
    ids: Seq<(u64, ())>,
    focused: int,
    inactive: int,
    budget: int,
)
    requires
        1 <= budget < usize::MAX,
        asked_in_all(
            snapshot,
            sorted_ids(all_terminals(snapshot.workspaces@)),
            focused,
            inactive,
        ) == usize::MAX,
    ensures
        granted_in_all(snapshot, ids, focused, inactive, budget) == 0,
    decreases ids.len(),
{
    if ids.len() > 0 {
        lemma_granted_of_too_much(snapshot, ids.drop_last(), focused, inactive, budget);
        let id = TerminalId { value: ids.last().0 };
        let terminals = all_terminals(snapshot.workspaces@);
        lemma_listed_has_size(terminals, id);
        if let Some(size) = first_size(terminals, id) {
            let row = row_cost(max_of(size.columns as int, 1));
            lemma_row_cost_positive(max_of(size.columns as int, 1));
            let asked = asked_lines(snapshot, id, focused, inactive);
            assert(asked * row >= 1) by (nonlinear_arith)
                requires
                    asked >= 1,
                    row > 0,
            ;
            let most = usize::MAX as int;
            let product = min_of(asked * budget, most);
            assert(0 <= product <= most);
            assert(0 <= asked * budget) by (nonlinear_arith)
                requires
                    asked >= 1,
                    budget >= 1,
            ;
            assert(product / most <= 1) by (nonlinear_arith)
                requires
                    0 <= product <= most,
                    most > 0,
            ;
            assert(granted_lines(snapshot, id, focused, inactive, budget) == 1);
        }
    }
}

/// What one terminal gets is to what it asks for as the budget is to what all
/// ask for, or less.
proof fn lemma_granted_share(
    snapshot: ModelSnapshot,
    id: TerminalId,
    focused: int,
    inactive: int,
    budget: int,
    total: int,
)
    requires
        1 <= budget,
        total == asked_in_all(
            snapshot,
            sorted_ids(all_terminals(snapshot.workspaces@)),
            focused,
            inactive,
        ),
        exact_bytes(snapshot, id, focused, inactive) <= usize::MAX,
    ensures
        ({
            let granted = granted_bytes(snapshot, id, focused, inactive, budget);
            let asked = exact_bytes(snapshot, id, focused, inactive);
            &&& 0 <= granted <= asked
            &&& total > budget ==> granted * total <= asked * budget
        }),
{
    let terminals = all_terminals(snapshot.workspaces@);
    lemma_listed_has_size(terminals, id);
    if let Some(size) = first_size(terminals, id) {
        let row = row_cost(max_of(size.columns as int, 1));
        lemma_row_cost_positive(max_of(size.columns as int, 1));
        let asked = asked_lines(snapshot, id, focused, inactive);
        let lines = granted_lines(snapshot, id, focused, inactive, budget);
        let bytes = asked_bytes(snapshot, id, focused, inactive);
        granted_lines_are_bounded(asked, bytes, total, budget);
        assert(1 <= lines <= asked);
        assert(0 <= lines * row <= asked * row) by (nonlinear_arith)
            requires
                1 <= lines <= asked,
                row > 0,
        ;
        assert(asked * row >= 1) by (nonlinear_arith)
            requires
                asked >= 1,
                row > 0,
        ;
        if total > budget {
            if lines > 1 {
                a_share_stays_in_proportion(asked, bytes, total, budget);
                assert(lines * total <= asked * budget);
                assert((lines * row) * total <= (asked * row) * budget) by (nonlinear_arith)
                    requires
                        lines * total <= asked * budget,
                        row > 0,
                ;
            } else {
                assert(0 <= (asked * row) * budget) by (nonlinear_arith)
                    requires
                        asked * row >= 1,
                        budget >= 1,
                ;
            }
        }
    }
}

proof fn lemma_granted_in_all(
    snapshot: ModelSnapshot,
    ids: Seq<(u64, ())>,
    focused: int,
    inactive: int,
    budget: int,
    total: int,
)
    requires
        1 <= budget,
        total == asked_in_all(
            snapshot,
            sorted_ids(all_terminals(snapshot.workspaces@)),
            focused,
            inactive,
        ),
        exact_in_all(snapshot, ids, focused, inactive) <= usize::MAX,
    ensures
        ({
            let granted = granted_in_all(snapshot, ids, focused, inactive, budget);
            let asked = exact_in_all(snapshot, ids, focused, inactive);
            &&& 0 <= granted <= asked
            &&& total > budget ==> granted * total <= asked * budget
        }),
    decreases ids.len(),
{
    if ids.len() > 0 {
        let front = ids.drop_last();
        let id = TerminalId { value: ids.last().0 };
        lemma_exact_bytes(snapshot, id, focused, inactive);
        lemma_counted(snapshot, front, focused, inactive);
        lemma_granted_in_all(snapshot, front, focused, inactive, budget, total);
        lemma_granted_share(snapshot, id, focused, inactive, budget, total);
        let granted_front = granted_in_all(snapshot, front, focused, inactive, budget);
        let granted_last = granted_bytes(snapshot, id, focused, inactive, budget);
        let asked_front = exact_in_all(snapshot, front, focused, inactive);
        let asked_last = exact_bytes(snapshot, id, focused, inactive);
        if total > budget {
            assert((granted_front + granted_last) * total <= (asked_front + asked_last) * budget)
                by (nonlinear_arith)
                requires
                    granted_front * total <= asked_front * budget,
                    granted_last * total <= asked_last * budget,
            ;
        }
    } else {
        assert(0 * total <= 0 * budget) by (nonlinear_arith);
    }
}

/// Together the terminals keep within the aggregate byte budget: the lines of
/// all those that get more than a single one cost no more than it. Each gets a
/// line at least, and no more than the limit for one terminal. Only a budget
/// of all that can be counted is no bound for those that ask for more.
pub proof fn grants_stay_within_the_budget(
    snapshot: ModelSnapshot,
    focused: int,
    inactive: int,
    budget: int,
)
    requires
        1 <= budget,
        budget < usize::MAX || exact_in_all(
            snapshot,
            sorted_ids(all_terminals(snapshot.workspaces@)),
            focused,
            inactive,
        ) <= usize::MAX,
    ensures
        granted_in_all(
            snapshot,
            sorted_ids(all_terminals(snapshot.workspaces@)),
            focused,
            inactive,
            budget,
        ) <= budget,
        forall|id: TerminalId|
            lists(all_terminals(snapshot.workspaces@), id.value) ==> 1 <= #[trigger] granted_lines(
                snapshot,
                id,
                focused,
                inactive,
                budget,
            ) <= MAX_SCROLLBACK_LINES,
{
    let terminals = all_terminals(snapshot.workspaces@);
    let ids = sorted_ids(terminals);
    let total = asked_in_all(snapshot, ids, focused, inactive);
    lemma_counted(snapshot, ids, focused, inactive);
    if exact_in_all(snapshot, ids, focused, inactive) <= usize::MAX {
        lemma_granted_in_all(snapshot, ids, focused, inactive, budget, total);
        let granted = granted_in_all(snapshot, ids, focused, inactive, budget);
        if total > budget {
            assert(granted <= budget) by (nonlinear_arith)
                requires
                    granted * total <= total * budget,
                    total > 0,
            ;
        }
    } else {
        lemma_granted_of_too_much(snapshot, ids, focused, inactive, budget);
    }
    assert forall|id: TerminalId| lists(terminals, id.value) implies 1 <= #[trigger] granted_lines(
        snapshot,
        id,
        focused,
        inactive,
        budget,
    ) <= MAX_SCROLLBACK_LINES by {
        granted_lines_are_bounded(
            asked_lines(snapshot, id, focused, inactive),
            asked_bytes(snapshot, id, focused, inactive),
            total,
            budget,
        );
    }
}

/// The terminal is in a pane of the tree.
pub open spec fn shows(tree: PaneTreeDump, id: u64) -> bool
    decreases tree,
{
    match tree {
        PaneTreeDump::Leaf { terminal, .. } => terminal is Some && terminal->0.terminal_id.value
            == id,
        PaneTreeDump::Split { first, second } => shows(*first, id) || shows(*second, id),
    }
}

proof fn lemma_lists_both(front: Seq<LeafTerminal>, back: Seq<LeafTerminal>, id: u64)
    ensures
        lists(front + back, id) == (lists(front, id) || lists(back, id)),
{
    let all = front + back;
    if lists(front, id) {
        let i = choose|i: int|
            0 <= i < front.len() && (#[trigger] front[i]).terminal_id.value == id;
        assert(all[i].terminal_id.value == id);
    }
    if lists(back, id) {
        let i = choose|i: int| 0 <= i < back.len() && (#[trigger] back[i]).terminal_id.value == id;
        assert(all[front.len() + i].terminal_id.value == id);
    }
    if lists(all, id) {
        let i = choose|i: int| 0 <= i < all.len() && (#[trigger] all[i]).terminal_id.value == id;
        if i < front.len() {
            assert(front[i].terminal_id.value == id);
        } else {
            assert(back[i - front.len()].terminal_id.value == id);
        }
    }
}

/// The terminals of a tree are those in its panes, each of them.
pub proof fn a_tree_lists_the_terminals_of_its_panes(tree: PaneTreeDump, id: u64)
    ensures
        lists(tree_terminals(tree), id) == shows(tree, id),
    decreases tree,
{
    match tree {
        PaneTreeDump::Leaf { terminal, .. } => match terminal {
            Some(terminal) => {
                assert(seq![terminal][0] == terminal);
            },
            None => {},
        },
        PaneTreeDump::Split { first, second } => {
            a_tree_lists_the_terminals_of_its_panes(*first, id);
            a_tree_lists_the_terminals_of_its_panes(*second, id);
            lemma_lists_both(tree_terminals(*second), tree_terminals(*first), id);
        },
    }
}

proof fn lemma_tabs_list(tabs: Seq<TabDump>, id: u64)
    ensures
        lists(tab_terminals(tabs), id) == exists|t: int|
            0 <= t < tabs.len() && #[trigger] shows(tabs[t].tree, id),
    decreases tabs.len(),
{
    if tabs.len() > 0 {
        let less = tabs.drop_last();
        lemma_tabs_list(less, id);
        a_tree_lists_the_terminals_of_its_panes(tabs.last().tree, id);
        lemma_lists_both(tab_terminals(less), tree_terminals(tabs.last().tree), id);
        assert forall|t: int| 0 <= t < less.len() implies #[trigger] less[t] == tabs[t] by {}
        if exists|t: int| 0 <= t < tabs.len() && #[trigger] shows(tabs[t].tree, id) {
            let t = choose|t: int| 0 <= t < tabs.len() && #[trigger] shows(tabs[t].tree, id);
            if t < less.len() {
                assert(shows(less[t].tree, id));
            }
        }
        if exists|t: int| 0 <= t < less.len() && #[trigger] shows(less[t].tree, id) {
            let t = choose|t: int| 0 <= t < less.len() && #[trigger] shows(less[t].tree, id);
            assert(shows(tabs[t].tree, id));
        }
        if shows(tabs.last().tree, id) {
            assert(shows(tabs[tabs.len() - 1].tree, id));
        }
    }
}

/// The terminals of some workspaces are those in the panes of their tabs, each
/// of them.
pub proof fn every_terminal_is_listed(workspaces: Seq<WorkspaceDump>, id: u64)
    ensures
        lists(all_terminals(workspaces), id) == exists|w: int, t: int|
            0 <= w < workspaces.len() && 0 <= t < workspaces[w].tabs@.len() && #[trigger] shows(
                workspaces[w].tabs@[t].tree,
                id,
            ),
    decreases workspaces.len(),
{
    if workspaces.len() > 0 {
        let less = workspaces.drop_last();
        let last = workspaces.last();
        every_terminal_is_listed(less, id);
        lemma_tabs_list(last.tabs@, id);
        lemma_lists_both(all_terminals(less), tab_terminals(last.tabs@), id);
        if exists|w: int, t: int|
            0 <= w < workspaces.len() && 0 <= t < workspaces[w].tabs@.len() && #[trigger] shows(
                workspaces[w].tabs@[t].tree,
                id,
            ) {
            let (w, t) = choose|w: int, t: int|
                0 <= w < workspaces.len() && 0 <= t < workspaces[w].tabs@.len() && #[trigger] shows(
                    workspaces[w].tabs@[t].tree,
                    id,
                );
            if w < less.len() {
                assert(less[w] == workspaces[w]);
                assert(shows(less[w].tabs@[t].tree, id));
            } else {
                assert(shows(last.tabs@[t].tree, id));
            }
        }
        if lists(all_terminals(less), id) {
            let (w, t) = choose|w: int, t: int|
                0 <= w < less.len() && 0 <= t < less[w].tabs@.len() && #[trigger] shows(
                    less[w].tabs@[t].tree,
                    id,
                );
            assert(shows(workspaces[w].tabs@[t].tree, id));
        }
        if lists(tab_terminals(last.tabs@), id) {
            let t = choose|t: int|
                0 <= t < last.tabs@.len() && #[trigger] shows(last.tabs@[t].tree, id);
            assert(shows(workspaces[workspaces.len() - 1].tabs@[t].tree, id));
        }
    }
}

/// The pane of the tree has the terminal.
pub open spec fn stands_in(tree: PaneTreeDump, pane: PaneId, id: TerminalId) -> bool
    decreases tree,
{
    match tree {
        PaneTreeDump::Leaf { pane_id, terminal, .. } => pane_id == pane && terminal is Some
            && terminal->0.terminal_id == id,
        PaneTreeDump::Split { first, second } => stands_in(*first, pane, id) || stands_in(
            *second,
            pane,
            id,
        ),
    }
}

/// A pane's terminal is the one that stands in it, wherever in the tree that is.
pub proof fn a_pane_has_its_terminal(tree: PaneTreeDump, pane: PaneId, id: TerminalId)
    ensures
        pane_terminal(tree, pane) == Some(id) ==> stands_in(tree, pane, id),
        stands_in(tree, pane, id) ==> pane_terminal(tree, pane) is Some,
    decreases tree,
{
    match tree {
        PaneTreeDump::Leaf { .. } => {},
        PaneTreeDump::Split { first, second } => {
            a_pane_has_its_terminal(*first, pane, id);
            a_pane_has_its_terminal(*second, pane, id);
        },
    }
}

/// A workspace is found by its id: the first one that has it.
pub proof fn a_workspace_is_found_by_its_id(workspaces: Seq<WorkspaceDump>, id: WorkspaceId)
    ensures
        match workspace_at(workspaces, id) {
            Some(at) => 0 <= at < workspaces.len() && workspaces[at].id == id && forall|i: int|
                0 <= i < at ==> (#[trigger] workspaces[i]).id != id,
            None => forall|i: int|
                0 <= i < workspaces.len() ==> (#[trigger] workspaces[i]).id != id,
        },
    decreases workspaces.len(),
{
    if workspaces.len() > 0 {
        let less = workspaces.drop_last();
        a_workspace_is_found_by_its_id(less, id);
        assert forall|i: int| 0 <= i < less.len() implies #[trigger] workspaces[i] == less[i] by {}
    }
}

/// A tab is found by its id: the first one that has it.
pub proof fn a_tab_is_found_by_its_id(tabs: Seq<TabDump>, id: TabId)
    ensures
        match tab_at(tabs, id) {
            Some(at) => 0 <= at < tabs.len() && tabs[at].id == id && forall|i: int|
                0 <= i < at ==> (#[trigger] tabs[i]).id != id,
            None => forall|i: int| 0 <= i < tabs.len() ==> (#[trigger] tabs[i]).id != id,
        },
    decreases tabs.len(),
{
    if tabs.len() > 0 {
        let less = tabs.drop_last();
        a_tab_is_found_by_its_id(less, id);
        assert forall|i: int| 0 <= i < less.len() implies #[trigger] tabs[i] == less[i] by {}
    }
}

/// The focused terminal is in the active pane of the active tab of the active
/// workspace.
pub proof fn the_focused_terminal_is_in_the_active_pane(snapshot: ModelSnapshot, w: int, t: int)
    requires
        0 <= w < snapshot.workspaces@.len(),
        snapshot.active_workspace == Some(snapshot.workspaces@[w].id),
        forall|i: int|
            0 <= i < w ==> (#[trigger] snapshot.workspaces@[i]).id != snapshot.workspaces@[w].id,
        0 <= t < snapshot.workspaces@[w].tabs@.len(),
        snapshot.workspaces@[w].active_tab == Some(snapshot.workspaces@[w].tabs@[t].id),
        forall|i: int|
            0 <= i < t ==> (#[trigger] snapshot.workspaces@[w].tabs@[i]).id
                != snapshot.workspaces@[w].tabs@[t].id,
    ensures
        ({
            let tab = snapshot.workspaces@[w].tabs@[t];
            focused_terminal(snapshot) == pane_terminal(tab.tree, tab.active_pane)
        }),
{
    let workspace = snapshot.workspaces@[w];
    a_workspace_is_found_by_its_id(snapshot.workspaces@, workspace.id);
    a_tab_is_found_by_its_id(workspace.tabs@, workspace.tabs@[t].id);
    assert(workspace_at(snapshot.workspaces@, workspace.id) == Some(w));
    assert(tab_at(workspace.tabs@, workspace.tabs@[t].id) == Some(t));
}

/// The focused terminal asks for its own number of lines, any other for that of
/// terminals without focus.
pub proof fn the_focused_terminal_asks_for_more(
    snapshot: ModelSnapshot,
    id: TerminalId,
    focused: int,
    inactive: int,
)
    requires
        1 <= focused <= MAX_SCROLLBACK_LINES,
        1 <= inactive <= MAX_SCROLLBACK_LINES,
    ensures
        focused_terminal(snapshot) == Some(id) ==> asked_lines(snapshot, id, focused, inactive)
            == focused,
        focused_terminal(snapshot) != Some(id) ==> asked_lines(snapshot, id, focused, inactive)
            == inactive,
{
}

/// Lines are granted in full where all that is asked for fits the budget; where
/// it does not, no terminal gets less than its share, rounded down.
pub proof fn lines_are_granted_as_far_as_the_budget_goes(
    lines: int,
    bytes: int,
    total: int,
    budget: int,
)
    requires
        1 <= lines <= MAX_SCROLLBACK_LINES,
        1 <= budget,
    ensures
        total <= budget ==> scaled_lines(lines, bytes, total, budget) == lines,
        bytes == 0 ==> scaled_lines(lines, bytes, total, budget) == lines,
        bytes != 0 && total > budget && lines * budget <= usize::MAX ==> (scaled_lines(
            lines,
            bytes,
            total,
            budget,
        ) + 1) * total > lines * budget,
{
    if bytes != 0 && total > budget && lines * budget <= usize::MAX {
        let scaled = scaled_lines(lines, bytes, total, budget);
        let share = (lines * budget) / total;
        assert(lines * budget >= 0) by (nonlinear_arith)
            requires
                lines >= 1,
                budget >= 1,
        ;
        assert((share + 1) * total > lines * budget) by (nonlinear_arith)
            requires
                share == (lines * budget) / total,
                total > 0,
        ;
        assert(share <= lines) by (nonlinear_arith)
            requires
                share == (lines * budget) / total,
                total > budget,
                budget >= 1,
                lines >= 1,
        ;
        assert((scaled + 1) * total >= (share + 1) * total) by (nonlinear_arith)
            requires
                scaled >= share,
                total > 0,
        ;
    }
}

/// The size of a terminal is that of the first pane that lists it.
pub proof fn a_size_is_that_of_the_first_pane(terminals: Seq<LeafTerminal>, id: TerminalId, at: int)
    requires
        0 <= at < terminals.len(),
        terminals[at].terminal_id == id,
        forall|i: int| 0 <= i < at ==> (#[trigger] terminals[i]).terminal_id != id,
    ensures
        first_size(terminals, id) == Some(terminals[at].size),
    decreases at,
{
    if at > 0 {
        let rest = terminals.drop_first();
        assert forall|i: int| 0 <= i < at - 1 implies (#[trigger] rest[i]).terminal_id != id by {
            assert(rest[i] == terminals[i + 1]);
        }
        assert(terminals[0].terminal_id != id);
        a_size_is_that_of_the_first_pane(rest, id, at - 1);
    }
}

/// A terminal's history is protected exactly while an agent that keeps it runs in
/// it.
pub proof fn running_agents_protect_their_history(agents: Seq<AgentDump>, id: TerminalId, at: int)
    requires
        0 <= at < agents.len(),
    ensures
        agents[at].terminal_id == id && agents[at].keeps_scrollback && agents[at].status
            == TerminalStatus::Running ==> is_protected(agents, id),
        (forall|i: int|
            0 <= i < agents.len() ==> (#[trigger] agents[i]).terminal_id != id
                || !agents[i].keeps_scrollback || agents[i].status != TerminalStatus::Running)
            ==> !is_protected(agents, id),
{
}

/// What a terminal asks for is its lines at the cost of a row of its width.
pub proof fn a_terminal_asks_for_its_rows(
    snapshot: ModelSnapshot,
    id: TerminalId,
    focused: int,
    inactive: int,
    size: TerminalSize,
)
    requires
        first_size(all_terminals(snapshot.workspaces@), id) == Some(size),
        size.columns >= 1,
    ensures
        ({
            let exact = asked_lines(snapshot, id, focused, inactive) * row_cost(
                size.columns as int,
            );
            &&& exact <= usize::MAX ==> asked_bytes(snapshot, id, focused, inactive) == exact
            &&& exact > usize::MAX ==> asked_bytes(snapshot, id, focused, inactive) == usize::MAX
        }),
        asked_in_all(snapshot, Seq::empty(), focused, inactive) == 0,
{
}

} // verus!

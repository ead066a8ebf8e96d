//! What a window finds in the projection of a server.
use std::sync::Arc;

use vstd::prelude::*;

use super::tree::{
    a_tab_is_found_by_its_id, a_workspace_is_found_by_its_id, find_tab, find_workspace, pane_terminal, tab_at, terminal_id_for_pane, workspace_at, ModelSnapshot,
    PaneTreeDump, TabDump, WorkspaceDump,
};
use crate::ids::{PaneId, TabId, TerminalId, WorkspaceId};
use crate::terminal::snapshot::{TerminalSize, TerminalSnapshot, MAX_COLUMNS, MAX_LINES};

verus! {

/// The workspaces that a window lists: all of them, or the one that is shown
/// where the projection has no list.
pub open spec fn listed(model: ModelSnapshot) -> Seq<WorkspaceDump> {
    if model.workspaces@.len() > 0 {
        model.workspaces@
    } else {
        match model.workspace {
            Some(workspace) => seq![workspace],
            None => Seq::empty(),
        }
    }
}

/// The workspace with an id.
pub open spec fn workspace_with(model: ModelSnapshot, id: WorkspaceId) -> Option<WorkspaceDump> {
    match workspace_at(listed(model), id) {
        Some(at) => Some(listed(model)[at]),
        None => None,
    }
}

/// The tab with an id among the tabs of some workspaces.
pub open spec fn tab_among(workspaces: Seq<WorkspaceDump>, id: TabId) -> Option<TabDump>
    decreases workspaces.len(),
{
    if workspaces.len() == 0 {
        None
    } else {
        match tab_at(workspaces[0].tabs@, id) {
            Some(at) => Some(workspaces[0].tabs@[at]),
            None => tab_among(workspaces.drop_first(), id),
        }
    }
}

/// The tab with an id.
pub open spec fn tab_with(model: ModelSnapshot, id: TabId) -> Option<TabDump> {
    tab_among(listed(model), id)
}

/// The workspace that is active.
pub open spec fn active_workspace(model: ModelSnapshot) -> Option<WorkspaceId> {
    match model.active_workspace {
        Some(id) => Some(id),
        None => match model.workspace {
            Some(workspace) => Some(workspace.id),
            None => None,
        },
    }
}

/// The tab that is shown.
pub open spec fn shown_tab(model: ModelSnapshot) -> Option<TabDump> {
    match model.workspace {
        Some(workspace) => match workspace.active_tab {
            Some(id) => match tab_at(workspace.tabs@, id) {
                Some(at) => Some(workspace.tabs@[at]),
                None => None,
            },
            None => None,
        },
        None => None,
    }
}

/// What the terminal of a pane shows.
pub open spec fn pane_snapshot(tree: PaneTreeDump, pane: PaneId) -> Option<Arc<TerminalSnapshot>>
    decreases tree,
{
    match tree {
        PaneTreeDump::Leaf { pane_id, snapshot, .. } => if pane_id == pane {
            snapshot
        } else {
            None
        },
        PaneTreeDump::Split { first, second } => match pane_snapshot(*first, pane) {
            Some(snapshot) => Some(snapshot),
            None => pane_snapshot(*second, pane),
        },
    }
}

/// What a terminal in some panes shows.
pub open spec fn tree_snapshot(tree: PaneTreeDump, id: TerminalId) -> Option<Arc<TerminalSnapshot>>
    decreases tree,
{
    match tree {
        PaneTreeDump::Leaf { terminal, snapshot, .. } => match terminal {
            Some(terminal) => if terminal.terminal_id == id {
                snapshot
            } else {
                None
            },
            None => None,
        },
        PaneTreeDump::Split { first, second } => match tree_snapshot(*first, id) {
            Some(snapshot) => Some(snapshot),
            None => tree_snapshot(*second, id),
        },
    }
}

/// What a terminal in some tabs shows.
pub open spec fn tabs_snapshot(tabs: Seq<TabDump>, id: TerminalId) -> Option<Arc<TerminalSnapshot>>
    decreases tabs.len(),
{
    if tabs.len() == 0 {
        None
    } else {
        match tree_snapshot(tabs[0].tree, id) {
            Some(snapshot) => Some(snapshot),
            None => tabs_snapshot(tabs.drop_first(), id),
        }
    }
}

/// What a terminal of the shown workspace shows.
pub open spec fn shown_snapshot(model: ModelSnapshot, id: TerminalId) -> Option<
    Arc<TerminalSnapshot>,
> {
    match model.workspace {
        Some(workspace) => tabs_snapshot(workspace.tabs@, id),
        None => None,
    }
}

/// The terminal of a pane in some tabs.
pub open spec fn tabs_pane_terminal(tabs: Seq<TabDump>, pane: PaneId) -> Option<TerminalId>
    decreases tabs.len(),
{
    if tabs.len() == 0 {
        None
    } else {
        match pane_terminal(tabs[0].tree, pane) {
            Some(id) => Some(id),
            None => tabs_pane_terminal(tabs.drop_first(), pane),
        }
    }
}

/// The terminal of a pane of the shown workspace.
pub open spec fn shown_pane_terminal(model: ModelSnapshot, pane: PaneId) -> Option<TerminalId> {
    match model.workspace {
        Some(workspace) => tabs_pane_terminal(workspace.tabs@, pane),
        None => None,
    }
}

/// The terminal that keys go to.
pub open spec fn active_terminal(model: ModelSnapshot, focused: Option<PaneId>) -> Option<
    TerminalId,
> {
    match focused {
        Some(pane) => match shown_tab(model) {
            Some(tab) => pane_terminal(tab.tree, pane),
            None => None,
        },
        None => None,
    }
}

/// What the pane that keys go to shows.
pub open spec fn active_snapshot(model: ModelSnapshot, focused: Option<PaneId>) -> Option<
    Arc<TerminalSnapshot>,
> {
    match focused {
        Some(pane) => match shown_tab(model) {
            Some(tab) => pane_snapshot(tab.tree, pane),
            None => None,
        },
        None => None,
    }
}

/// What the terminals of some panes show is within the limits.
pub open spec fn tree_fits(tree: PaneTreeDump) -> bool
    decreases tree,
{
    match tree {
        PaneTreeDump::Leaf { snapshot, .. } => match snapshot {
            Some(snapshot) => snapshot.size.within_limits(),
            None => true,
        },
        PaneTreeDump::Split { first, second } => tree_fits(*first) && tree_fits(*second),
    }
}

/// What the terminals of the shown workspace show is within the limits.
pub open spec fn model_fits(model: ModelSnapshot) -> bool {
    match model.workspace {
        Some(workspace) => forall|i: int|
            0 <= i < workspace.tabs@.len() ==> tree_fits((#[trigger] workspace.tabs@[i]).tree),
        None => true,
    }
}

fn size_fits(size: TerminalSize) -> (fits: bool)
    ensures
        fits == size.within_limits(),
{
    2 <= size.columns && size.columns <= MAX_COLUMNS && 1 <= size.lines && size.lines <= MAX_LINES
}

/// Some panes without the screens that are out of the limits.
pub open spec fn fitting_tree(tree: PaneTreeDump) -> PaneTreeDump
    decreases tree,
{
    match tree {
        PaneTreeDump::Leaf { pane_id, terminal, snapshot } => PaneTreeDump::Leaf {
            pane_id,
            terminal,
            snapshot: match snapshot {
                Some(snapshot) => if snapshot.size.within_limits() {
                    Some(snapshot)
                } else {
                    None
                },
                None => None,
            },
        },
        PaneTreeDump::Split { first, second } => PaneTreeDump::Split {
            first: Box::new(fitting_tree(*first)),
            second: Box::new(fitting_tree(*second)),
        },
    }
}

/// A tab without the screens that are out of the limits.
pub open spec fn fitting_tab(tab: TabDump) -> TabDump {
    TabDump { tree: fitting_tree(tab.tree), ..tab }
}

/// One projection is another without the screens of the shown workspace that
/// are out of the limits.
pub open spec fn fits_into(kept: ModelSnapshot, model: ModelSnapshot) -> bool {
    &&& kept == (ModelSnapshot { workspace: kept.workspace, ..model })
    &&& match (kept.workspace, model.workspace) {
        (Some(kept), Some(workspace)) => {
            &&& kept == (WorkspaceDump { tabs: kept.tabs, ..workspace })
            &&& kept.tabs@ == workspace.tabs@.map_values(|tab: TabDump| fitting_tab(tab))
        },
        (None, None) => true,
        _ => false,
    }
}

proof fn lemma_fitting_tree(tree: PaneTreeDump)
    ensures
        tree_fits(fitting_tree(tree)),
        tree_fits(tree) ==> fitting_tree(tree) == tree,
    decreases tree,
{
    if let PaneTreeDump::Split { first, second } = tree {
        lemma_fitting_tree(*first);
        lemma_fitting_tree(*second);
    }
}

fn keep_fitting(tree: PaneTreeDump) -> (kept: PaneTreeDump)
    ensures
        kept == fitting_tree(tree),
    decreases tree,
{
    match tree {
        PaneTreeDump::Leaf { pane_id, terminal, snapshot } => {
            let snapshot: Option<Arc<TerminalSnapshot>> = match snapshot {
                Some(snapshot) => if size_fits(snapshot.size) {
                    Some(snapshot)
                } else {
                    None
                },
                None => None,
            };
            PaneTreeDump::Leaf { pane_id, terminal, snapshot }
        },
        PaneTreeDump::Split { first, second } => PaneTreeDump::Split {
            first: Box::new(keep_fitting(*first)),
            second: Box::new(keep_fitting(*second)),
        },
    }
}

/// The projection as a window can show it: without the screens of the shown
/// workspace that are out of the limits. Where there are none it is the same.
pub fn fitting_model(model: ModelSnapshot) -> (kept: ModelSnapshot)
    ensures
        model_fits(kept),
        fits_into(kept, model),
        model_fits(model) && model.workspace is Some ==> (kept.workspace->0).tabs@ == (
        model.workspace->0).tabs@,
{
    let ghost given = model;
    let mut model: ModelSnapshot = model;
    if let Some(workspace) = model.workspace {
        let ghost tabs = workspace.tabs@;
        let mut workspace: WorkspaceDump = workspace;
        let mut rest: Vec<TabDump> = workspace.tabs;
        let mut kept: Vec<TabDump> = Vec::new();
        while rest.len() > 0
            invariant
                kept@.len() + rest@.len() == tabs.len(),
                rest@ == tabs.skip(kept@.len() as int),
                kept@ == tabs.take(kept@.len() as int).map_values(|tab: TabDump| fitting_tab(tab)),
            decreases rest@.len(),
        {
            let ghost at = kept@.len() as int;
            assert(rest@[0] == tabs[at]);
            let tab: TabDump = rest.remove(0);
            let TabDump { id, title, tree, active_pane } = tab;
            kept.push(TabDump { id, title, tree: keep_fitting(tree), active_pane });
            assert(rest@ =~= tabs.skip(at + 1));
            assert(kept@ =~= tabs.take(at + 1).map_values(|tab: TabDump| fitting_tab(tab)));
        }
        proof {
            assert(kept@ =~= tabs.map_values(|tab: TabDump| fitting_tab(tab)));
            assert forall|i: int| 0 <= i < kept@.len() implies tree_fits(
                (#[trigger] kept@[i]).tree,
            ) by {
                lemma_fitting_tree(tabs[i].tree);
            }
            if model_fits(given) {
                assert forall|i: int| 0 <= i < tabs.len() implies kept@[i] == tabs[i] by {
                    assert(tree_fits(tabs[i].tree));
                    lemma_fitting_tree(tabs[i].tree);
                }
                assert(kept@ =~= tabs);
            }
        }
        workspace.tabs = kept;
        model.workspace = Some(workspace);
    }
    model
}

proof fn lemma_tree_snapshot_fits(tree: PaneTreeDump, id: TerminalId)
    requires
        tree_fits(tree),
    ensures
        match tree_snapshot(tree, id) {
            Some(snapshot) => snapshot.size.within_limits(),
            None => true,
        },
    decreases tree,
{
    if let PaneTreeDump::Split { first, second } = tree {
        lemma_tree_snapshot_fits(*first, id);
        lemma_tree_snapshot_fits(*second, id);
    }
}

proof fn lemma_tabs_snapshot_fits(tabs: Seq<TabDump>, id: TerminalId)
    requires
        forall|i: int| 0 <= i < tabs.len() ==> tree_fits((#[trigger] tabs[i]).tree),
    ensures
        match tabs_snapshot(tabs, id) {
            Some(snapshot) => snapshot.size.within_limits(),
            None => true,
        },
    decreases tabs.len(),
{
    if tabs.len() > 0 {
        assert(tree_fits(tabs[0].tree));
        lemma_tree_snapshot_fits(tabs[0].tree, id);
        lemma_tabs_snapshot_fits(tabs.drop_first(), id);
    }
}

/// What a terminal of a fitting projection shows is within the limits.
pub proof fn lemma_shown_snapshot_fits(model: ModelSnapshot, id: TerminalId)
    requires
        model_fits(model),
    ensures
        match shown_snapshot(model, id) {
            Some(snapshot) => snapshot.size.within_limits(),
            None => true,
        },
{
    if let Some(workspace) = model.workspace {
        lemma_tabs_snapshot_fits(workspace.tabs@, id);
    }
}

/// The snapshot that was found.
pub open spec fn found(snapshot: Option<&Arc<TerminalSnapshot>>) -> Option<Arc<TerminalSnapshot>> {
    match snapshot {
        Some(snapshot) => Some(*snapshot),
        None => None,
    }
}

pub fn terminal_snapshot_for_id(tree: &PaneTreeDump, terminal_id: TerminalId) -> (snapshot: Option<
    &Arc<TerminalSnapshot>,
>)
    ensures
        found(snapshot) == tree_snapshot(*tree, terminal_id),
    decreases tree,
{
    match tree {
        PaneTreeDump::Leaf { terminal, snapshot, .. } => match terminal {
            Some(terminal) => if terminal.terminal_id == terminal_id {
                snapshot.as_ref()
            } else {
                None
            },
            None => None,
        },
        PaneTreeDump::Split { first, second } => match terminal_snapshot_for_id(
            first,
            terminal_id,
        ) {
            Some(snapshot) => Some(snapshot),
            None => terminal_snapshot_for_id(second, terminal_id),
        },
    }
}

pub fn terminal_snapshot_for_pane(tree: &PaneTreeDump, pane_id: PaneId) -> (snapshot: Option<
    &Arc<TerminalSnapshot>,
>)
    ensures
        found(snapshot) == pane_snapshot(*tree, pane_id),
    decreases tree,
{
    match tree {
        PaneTreeDump::Leaf { pane_id: leaf, snapshot, .. } => if *leaf == pane_id {
            snapshot.as_ref()
        } else {
            None
        },
        PaneTreeDump::Split { first, second } => match terminal_snapshot_for_pane(first, pane_id) {
            Some(snapshot) => Some(snapshot),
            None => terminal_snapshot_for_pane(second, pane_id),
        },
    }
}

/// Finds what a terminal of the shown workspace shows.
pub fn terminal_snapshot_for(model: &ModelSnapshot, terminal_id: TerminalId) -> (snapshot: Option<
    &Arc<TerminalSnapshot>,
>)
    ensures
        found(snapshot) == shown_snapshot(*model, terminal_id),
{
    match &model.workspace {
        Some(workspace) => {
            let mut at: usize = 0;
            assert(workspace.tabs@.skip(0) =~= workspace.tabs@);
            while at < workspace.tabs.len()
                invariant
                    model.workspace == Some(*workspace),
                    at <= workspace.tabs@.len(),
                    tabs_snapshot(workspace.tabs@, terminal_id) == tabs_snapshot(
                        workspace.tabs@.skip(at as int),
                        terminal_id,
                    ),
                decreases workspace.tabs@.len() - at,
            {
                assert(workspace.tabs@.skip(at as int)[0] == workspace.tabs@[at as int]);
                assert(workspace.tabs@.skip(at as int).drop_first() =~= workspace.tabs@.skip(
                    at + 1,
                ));
                if let Some(snapshot) = terminal_snapshot_for_id(
                    &workspace.tabs[at].tree,
                    terminal_id,
                ) {
                    return Some(snapshot);
                }
                at = at + 1;
            }
            None
        },
        None => None,
    }
}

/// Finds the terminal of a pane of the shown workspace.
pub fn terminal_for_pane(model: &ModelSnapshot, pane_id: PaneId) -> (id: Option<TerminalId>)
    ensures
        id == shown_pane_terminal(*model, pane_id),
{
    match &model.workspace {
        Some(workspace) => {
            let mut at: usize = 0;
            assert(workspace.tabs@.skip(0) =~= workspace.tabs@);
            while at < workspace.tabs.len()
                invariant
                    model.workspace == Some(*workspace),
                    at <= workspace.tabs@.len(),
                    tabs_pane_terminal(workspace.tabs@, pane_id) == tabs_pane_terminal(
                        workspace.tabs@.skip(at as int),
                        pane_id,
                    ),
                decreases workspace.tabs@.len() - at,
            {
                assert(workspace.tabs@.skip(at as int)[0] == workspace.tabs@[at as int]);
                assert(workspace.tabs@.skip(at as int).drop_first() =~= workspace.tabs@.skip(
                    at + 1,
                ));
                if let Some(id) = terminal_id_for_pane(&workspace.tabs[at].tree, pane_id) {
                    return Some(id);
                }
                at = at + 1;
            }
            None
        },
        None => None,
    }
}

/// Finds the workspace with an id.
pub fn workspace_by_id(model: &ModelSnapshot, id: WorkspaceId) -> (workspace: Option<
    &WorkspaceDump,
>)
    ensures
        match workspace {
            Some(workspace) => workspace_with(*model, id) == Some(*workspace),
            None => workspace_with(*model, id) is None,
        },
{
    if model.workspaces.len() > 0 {
        return match find_workspace(&model.workspaces, id) {
            Some(at) => Some(&model.workspaces[at]),
            None => None,
        };
    }
    reveal_with_fuel(workspace_at, 2);
    match &model.workspace {
        Some(workspace) => {
            assert(listed(*model)[0] == *workspace);
            assert(listed(*model).drop_first() =~= Seq::empty());
            if workspace.id == id {
                Some(workspace)
            } else {
                None
            }
        },
        None => None,
    }
}

/// Finds the tab with an id.
pub fn tab_by_id(model: &ModelSnapshot, id: TabId) -> (tab: Option<&TabDump>)
    ensures
        match tab {
            Some(tab) => tab_with(*model, id) == Some(*tab),
            None => tab_with(*model, id) is None,
        },
{
    if model.workspaces.len() > 0 {
        let ghost all = model.workspaces@;
        let mut at: usize = 0;
        assert(all.skip(0) =~= all);
        while at < model.workspaces.len()
            invariant
                all == model.workspaces@,
                at <= all.len(),
                tab_among(all, id) == tab_among(all.skip(at as int), id),
            decreases all.len() - at,
        {
            assert(all.skip(at as int)[0] == all[at as int]);
            assert(all.skip(at as int).drop_first() =~= all.skip(at + 1));
            if let Some(place) = find_tab(&model.workspaces[at].tabs, id) {
                return Some(&model.workspaces[at].tabs[place]);
            }
            at = at + 1;
        }
        return None;
    }
    reveal_with_fuel(tab_among, 2);
    match &model.workspace {
        Some(workspace) => {
            assert(listed(*model)[0] == *workspace);
            assert(listed(*model).drop_first() =~= Seq::empty());
            match find_tab(&workspace.tabs, id) {
                Some(place) => Some(&workspace.tabs[place]),
                None => None,
            }
        },
        None => None,
    }
}

/// The workspace that is active.
pub fn active_workspace_id(model: &ModelSnapshot) -> (id: Option<WorkspaceId>)
    ensures
        id == active_workspace(*model),
{
    match model.active_workspace {
        Some(id) => Some(id),
        None => match &model.workspace {
            Some(workspace) => Some(workspace.id),
            None => None,
        },
    }
}

/// The tab that is shown.
pub fn active_tab(model: &ModelSnapshot) -> (tab: Option<&TabDump>)
    ensures
        match tab {
            Some(tab) => shown_tab(*model) == Some(*tab),
            None => shown_tab(*model) is None,
        },
{
    match &model.workspace {
        Some(workspace) => match workspace.active_tab {
            Some(id) => match find_tab(&workspace.tabs, id) {
                Some(at) => Some(&workspace.tabs[at]),
                None => None,
            },
            None => None,
        },
        None => None,
    }
}

/// The terminal that keys go to.
pub fn active_terminal_id(model: &ModelSnapshot, focused_pane: Option<PaneId>) -> (id: Option<
    TerminalId,
>)
    ensures
        id == active_terminal(*model, focused_pane),
{
    match focused_pane {
        Some(pane) => match active_tab(model) {
            Some(tab) => terminal_id_for_pane(&tab.tree, pane),
            None => None,
        },
        None => None,
    }
}

/// What the pane that keys go to shows.
pub fn active_terminal_snapshot(model: &ModelSnapshot, focused_pane: Option<PaneId>) -> (snapshot:
    Option<&Arc<TerminalSnapshot>>)
    ensures
        found(snapshot) == active_snapshot(*model, focused_pane),
{
    match focused_pane {
        Some(pane) => match active_tab(model) {
            Some(tab) => terminal_snapshot_for_pane(&tab.tree, pane),
            None => None,
        },
        None => None,
    }
}

/// The window lists the workspaces of the projection; where it lists none, the
/// one that is shown.
pub proof fn a_window_lists_the_workspaces(model: ModelSnapshot)
    ensures
        model.workspaces@.len() > 0 ==> listed(model) == model.workspaces@,
        model.workspaces@.len() == 0 && model.workspace is Some ==> listed(model) == seq![
            model.workspace->0,
        ],
        model.workspaces@.len() == 0 && model.workspace is None ==> listed(model).len() == 0,
        model.active_workspace is Some ==> active_workspace(model) == model.active_workspace,
        model.active_workspace is None && model.workspace is Some ==> active_workspace(model)
            == Some(model.workspace->0.id),
{
}

/// A workspace that is found has the id that was looked for, and one that is
/// listed is found.
pub proof fn a_listed_workspace_is_found(model: ModelSnapshot, id: WorkspaceId, at: int)
    requires
        0 <= at < listed(model).len(),
    ensures
        workspace_with(model, id) is Some ==> workspace_with(model, id)->0.id == id,
        listed(model)[at].id == id ==> workspace_with(model, id) is Some,
{
    a_workspace_is_found_by_its_id(listed(model), id);
}

/// A tab that is found has the id that was looked for, and one that any of the
/// workspaces has is found.
pub proof fn a_tab_of_any_workspace_is_found(
    workspaces: Seq<WorkspaceDump>,
    id: TabId,
    w: int,
    t: int,
)
    requires
        0 <= w < workspaces.len(),
        0 <= t < workspaces[w].tabs@.len(),
    ensures
        tab_among(workspaces, id) is Some ==> tab_among(workspaces, id)->0.id == id,
        workspaces[w].tabs@[t].id == id ==> tab_among(workspaces, id) is Some,
    decreases workspaces.len(),
{
    a_tab_is_found_by_its_id(workspaces[0].tabs@, id);
    let rest = workspaces.drop_first();
    if w > 0 {
        assert(rest[w - 1] == workspaces[w]);
        a_tab_of_any_workspace_is_found(rest, id, w - 1, t);
    } else if rest.len() > 0 {
        lemma_found_tab(rest, id);
    }
}

proof fn lemma_found_tab(workspaces: Seq<WorkspaceDump>, id: TabId)
    ensures
        tab_among(workspaces, id) is Some ==> tab_among(workspaces, id)->0.id == id,
    decreases workspaces.len(),
{
    if workspaces.len() > 0 {
        a_tab_is_found_by_its_id(workspaces[0].tabs@, id);
        lemma_found_tab(workspaces.drop_first(), id);
    }
}

/// A pane of the tree has the screen: the pane itself, or the one in which a
/// terminal stands.
pub open spec fn hangs_in(
    tree: PaneTreeDump,
    pane: Option<PaneId>,
    id: Option<TerminalId>,
    shown: Arc<TerminalSnapshot>,
) -> bool
    decreases tree,
{
    match tree {
        PaneTreeDump::Leaf { pane_id, terminal, snapshot } => {
            &&& pane is Some ==> pane->0 == pane_id
            &&& id is Some ==> terminal is Some && terminal->0.terminal_id == id->0
            &&& snapshot == Some(shown)
        },
        PaneTreeDump::Split { first, second } => hangs_in(*first, pane, id, shown) || hangs_in(
            *second,
            pane,
            id,
            shown,
        ),
    }
}

/// What is shown of a pane is what it holds, and what is shown of a terminal is
/// what the pane holds in which it stands, wherever in the tree that is.
pub proof fn a_pane_shows_its_screen(
    tree: PaneTreeDump,
    pane: PaneId,
    id: TerminalId,
    shown: Arc<TerminalSnapshot>,
)
    ensures
        pane_snapshot(tree, pane) == Some(shown) ==> hangs_in(tree, Some(pane), None, shown),
        hangs_in(tree, Some(pane), None, shown) ==> pane_snapshot(tree, pane) is Some,
        tree_snapshot(tree, id) == Some(shown) ==> hangs_in(tree, None, Some(id), shown),
        hangs_in(tree, None, Some(id), shown) ==> tree_snapshot(tree, id) is Some,
    decreases tree,
{
    match tree {
        PaneTreeDump::Leaf { .. } => {},
        PaneTreeDump::Split { first, second } => {
            a_pane_shows_its_screen(*first, pane, id, shown);
            a_pane_shows_its_screen(*second, pane, id, shown);
        },
    }
}

/// The screen of a terminal is found in whichever tab shows it.
pub proof fn any_tab_may_show_a_terminal(
    tabs: Seq<TabDump>,
    id: TerminalId,
    pane: PaneId,
    t: int,
)
    requires
        0 <= t < tabs.len(),
        forall|i: int| 0 <= i < t ==> tree_snapshot((#[trigger] tabs[i]).tree, id) is None,
        forall|i: int| 0 <= i < t ==> pane_terminal((#[trigger] tabs[i]).tree, pane) is None,
    ensures
        tree_snapshot(tabs[t].tree, id) is Some ==> tabs_snapshot(tabs, id) == tree_snapshot(
            tabs[t].tree,
            id,
        ),
        pane_terminal(tabs[t].tree, pane) is Some ==> tabs_pane_terminal(tabs, pane)
            == pane_terminal(tabs[t].tree, pane),
    decreases t,
{
    if t > 0 {
        let rest = tabs.drop_first();
        assert(tree_snapshot(tabs[0].tree, id) is None);
        assert forall|i: int| 0 <= i < t - 1 implies tree_snapshot(
            (#[trigger] rest[i]).tree,
            id,
        ) is None by {
            assert(rest[i] == tabs[i + 1]);
        }
        assert forall|i: int| 0 <= i < t - 1 implies pane_terminal(
            (#[trigger] rest[i]).tree,
            pane,
        ) is None by {
            assert(rest[i] == tabs[i + 1]);
        }
        any_tab_may_show_a_terminal(rest, id, pane, t - 1);
    }
}

/// What is active is in the focused pane of the tab that is shown.
pub proof fn the_focused_pane_is_active(
    model: ModelSnapshot,
    workspace: WorkspaceDump,
    pane: PaneId,
    t: int,
)
    requires
        model.workspace == Some(workspace),
        0 <= t < workspace.tabs@.len(),
        workspace.active_tab == Some(workspace.tabs@[t].id),
        forall|i: int|
            0 <= i < t ==> (#[trigger] workspace.tabs@[i]).id != workspace.tabs@[t].id,
    ensures
        active_terminal(model, Some(pane)) == pane_terminal(workspace.tabs@[t].tree, pane),
        active_snapshot(model, Some(pane)) == pane_snapshot(workspace.tabs@[t].tree, pane),
        active_terminal(model, None) is None,
        active_snapshot(model, None) is None,
{
    a_tab_is_found_by_its_id(workspace.tabs@, workspace.tabs@[t].id);
    assert(tab_at(workspace.tabs@, workspace.tabs@[t].id) == Some(t));
}

/// Screens that fit are kept, and so is everything else of a tree.
pub proof fn only_screens_that_do_not_fit_go(tree: PaneTreeDump, pane: PaneId)
    ensures
        tree_fits(tree) ==> fitting_tree(tree) == tree,
        tree_fits(fitting_tree(tree)),
        pane_terminal(fitting_tree(tree), pane) == pane_terminal(tree, pane),
    decreases tree,
{
    match tree {
        PaneTreeDump::Leaf { .. } => {},
        PaneTreeDump::Split { first, second } => {
            only_screens_that_do_not_fit_go(*first, pane);
            only_screens_that_do_not_fit_go(*second, pane);
        },
    }
}

} // verus!

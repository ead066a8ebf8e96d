//! The application: its connections and the terminals on them.
use std::sync::Arc;

use vstd::prelude::*;

use super::connections::{
    first_where, has_connection_id, the_first_connection_is_found, Connections, ManagedConnection,
};
use super::events::{TerminalEventMsg, TerminalSnapshotStore};
use super::notifications::{
    notices, notification_views, notify_agent_transitions, AgentNotification,
};
use super::plane::{
    answers, lists_in_order, turn, AttachPlan, CellSizeStep, PlaneView, TerminalConnection,
    TerminalEmulatorCommand, TerminalTurn,
};
use super::tree::{all_terminals, are_rows_countable, first_size, rows_countable, ModelSnapshot};
use crate::ids::{ConnectionId, TerminalId};
use crate::terminal::snapshot::TerminalSnapshot;

verus! {

/// The application.
#[derive(Debug)]
pub struct WaterApplication {
    pub connections: Connections,
    /// The number of the last notification.
    pub last_notification: u64,
}

/// Where the connection with an id stands, if its terminals are there.
pub open spec fn plane_at(list: Seq<ManagedConnection>, id: ConnectionId) -> Option<int> {
    match first_where(list, has_connection_id(id)) {
        Some(at) => if list[at].terminal is Some {
            Some(at)
        } else {
            None
        },
        None => None,
    }
}

/// The terminals of the connection at a place.
pub open spec fn plane(list: Seq<ManagedConnection>, at: int) -> PlaneView {
    list[at].terminal->0@
}

/// The connections are the same but for the terminals of one of them.
pub open spec fn only_plane_changed(
    before: Seq<ManagedConnection>,
    after: Seq<ManagedConnection>,
    at: int,
) -> bool {
    &&& after.len() == before.len()
    &&& after[at].terminal is Some
    &&& after == before.update(at, ManagedConnection { terminal: after[at].terminal, ..before[at] })
}

impl WaterApplication {
    /// The application with the connection to the server on this machine.
    pub fn new(snapshot: ModelSnapshot) -> (application: Self)
        ensures
            application.last_notification == 0,
            application.connections.list@.len() == 1,
            application.connections.list@[0].id == (ConnectionId { value: 1 }),
            application.connections.list@[0].title@ == "Local"@,
            application.connections.list@[0].kind is Local,
            application.connections.list@[0].snapshot == snapshot,
            application.connections.list@[0].terminal is None,
    {
        Self { connections: Connections::new(snapshot), last_notification: 0 }
    }

    fn find_plane(&self, id: ConnectionId) -> (at: Option<usize>)
        ensures
            match at {
                Some(at) => plane_at(self.connections.list@, id) == Some(at as int) && at
                    < self.connections.list@.len(),
                None => plane_at(self.connections.list@, id) is None,
            },
    {
        match self.connections.position(id) {
            Some(at) => if self.connections.list[at].terminal.is_some() {
                Some(at)
            } else {
                None
            },
            None => None,
        }
    }

    /// Takes the terminals of the connection at a place out.
    fn take_plane(&mut self, at: usize) -> (plane: TerminalConnection)
        requires
            at < old(self).connections.list@.len(),
            old(self).connections.list@[at as int].terminal is Some,
        ensures
            old(self).connections.list@[at as int].terminal == Some(plane),
            final(self).last_notification == old(self).last_notification,
            final(self).connections.list@ == old(self).connections.list@.update(
                at as int,
                ManagedConnection { terminal: None, ..old(self).connections.list@[at as int] },
            ),
    {
        let mut connection: ManagedConnection = self.connections.list.remove(at);
        let mut taken: Option<TerminalConnection> = None;
        std::mem::swap(&mut taken, &mut connection.terminal);
        self.connections.list.insert(at, connection);
        assert(self.connections.list@ =~= old(self).connections.list@.update(
            at as int,
            ManagedConnection { terminal: None, ..old(self).connections.list@[at as int] },
        ));
        taken.unwrap()
    }

    /// Puts the terminals of the connection at a place back.
    fn put_plane(&mut self, at: usize, plane: TerminalConnection)
        requires
            at < old(self).connections.list@.len(),
        ensures
            final(self).last_notification == old(self).last_notification,
            final(self).connections.list@ == old(self).connections.list@.update(
                at as int,
                ManagedConnection {
                    terminal: Some(plane),
                    ..old(self).connections.list@[at as int]
                },
            ),
    {
        let mut connection: ManagedConnection = self.connections.list.remove(at);
        connection.terminal = Some(plane);
        self.connections.list.insert(at, connection);
        assert(self.connections.list@ =~= old(self).connections.list@.update(
            at as int,
            ManagedConnection { terminal: Some(plane), ..old(self).connections.list@[at as int] },
        ));
    }

    /// Gives a connection its terminals; returns whether it is there.
    pub fn set_terminal(&mut self, id: ConnectionId, plane: TerminalConnection) -> (set: bool)
        ensures
            final(self).last_notification == old(self).last_notification,
            match first_where(old(self).connections.list@, has_connection_id(id)) {
                Some(at) => set && final(self).connections.list@ == old(
                    self,
                ).connections.list@.update(
                    at,
                    ManagedConnection {
                        terminal: Some(plane),
                        ..old(self).connections.list@[at]
                    },
                ),
                None => !set && final(self).connections.list@ == old(self).connections.list@,
            },
    {
        match self.connections.position(id) {
            Some(at) => {
                self.put_plane(at, plane);
                true
            },
            None => false,
        }
    }

    /// Turns the edges of the model's agent activity into notifications.
    pub fn notify_agent_transitions(&mut self, previous: &ModelSnapshot, current: &ModelSnapshot) -> (
    posted: Vec<AgentNotification>)
        ensures
            final(self).connections == old(self).connections,
            (notification_views(posted@), final(self).last_notification) == notices(
                previous.agents@,
                current.agents@,
                old(self).last_notification,
            ),
    {
        let (posted, last) = notify_agent_transitions(previous, current, self.last_notification);
        self.last_notification = last;
        posted
    }

    /// Installs a batch of worker-produced snapshots of a connection.
    pub fn apply_terminal_events(
        &mut self,
        id: ConnectionId,
        store: &mut TerminalSnapshotStore,
        batch: Vec<TerminalEventMsg>,
    ) -> (applied: Option<TerminalTurn>)
        ensures
            final(self).last_notification == old(self).last_notification,
            match plane_at(old(self).connections.list@, id) {
                Some(at) => {
                    let expected = turn(plane(old(self).connections.list@, at), old(store)@, batch@);
                    &&& applied matches Some(applied)
                    &&& only_plane_changed(
                        old(self).connections.list@,
                        final(self).connections.list@,
                        at,
                    )
                    &&& plane(final(self).connections.list@, at) == expected.plane
                    &&& final(store)@ == expected.store
                    &&& answers(applied.writes@) == expected.writes
                    &&& applied.resync@ == expected.resync
                    &&& lists_in_order(applied.changed@, expected.changed)
                },
                None => {
                    &&& applied is None
                    &&& final(self).connections.list@ == old(self).connections.list@
                    &&& final(store)@ == old(store)@
                },
            },
    {
        match self.find_plane(id) {
            Some(at) => {
                let ghost before = self.connections.list@;
                let mut plane: TerminalConnection = self.take_plane(at);
                let applied: TerminalTurn = plane.apply_terminal_events(store, batch);
                self.put_plane(at, plane);
                assert(self.connections.list@ =~= before.update(
                    at as int,
                    ManagedConnection { terminal: Some(plane), ..before[at as int] },
                ));
                Some(applied)
            },
            None => None,
        }
    }

    /// Begins the attachment of a terminal that a projection shows, if its
    /// rows can be counted.
    pub fn ensure_terminal_attached_with_snapshot(
        &mut self,
        id: ConnectionId,
        terminal_id: TerminalId,
        model: &ModelSnapshot,
    ) -> (plan: Option<AttachPlan>)
        ensures
            final(self).last_notification == old(self).last_notification,
            match plane_at(old(self).connections.list@, id) {
                Some(at) => if rows_countable(*model) && plane(
                    old(self).connections.list@,
                    at,
                ).attachable(*model, terminal_id) {
                    &&& plan == Some(
                        plane(old(self).connections.list@, at).plan(*model, terminal_id),
                    )
                    &&& only_plane_changed(
                        old(self).connections.list@,
                        final(self).connections.list@,
                        at,
                    )
                    &&& plane(final(self).connections.list@, at) == plane(
                        old(self).connections.list@,
                        at,
                    ).attaching(*model, terminal_id)
                } else {
                    &&& plan is None
                    &&& only_plane_changed(
                        old(self).connections.list@,
                        final(self).connections.list@,
                        at,
                    )
                    &&& plane(final(self).connections.list@, at) == plane(
                        old(self).connections.list@,
                        at,
                    )
                },
                None => plan is None && final(self).connections.list@ == old(
                    self,
                ).connections.list@,
            },
    {
        match self.find_plane(id) {
            Some(at) => {
                let ghost before = self.connections.list@;
                if !are_rows_countable(model) {
                    assert(before =~= before.update(
                        at as int,
                        ManagedConnection {
                            terminal: before[at as int].terminal,
                            ..before[at as int]
                        },
                    ));
                    return None;
                }
                let mut plane: TerminalConnection = self.take_plane(at);
                let plan: Option<AttachPlan> = plane.begin_attach(model, terminal_id);
                self.put_plane(at, plane);
                assert(self.connections.list@ =~= before.update(
                    at as int,
                    ManagedConnection { terminal: Some(plane), ..before[at as int] },
                ));
                plan
            },
            None => None,
        }
    }

    /// Begins the attachment of a terminal that the connection's own projection
    /// shows, if its rows can be counted.
    pub fn ensure_terminal_attached(&mut self, id: ConnectionId, terminal_id: TerminalId) -> (plan:
        Option<AttachPlan>)
        ensures
            final(self).last_notification == old(self).last_notification,
            match plane_at(old(self).connections.list@, id) {
                Some(at) => {
                    let model = old(self).connections.list@[at].snapshot;
                    let before = plane(old(self).connections.list@, at);
                    let attachable = rows_countable(model) && before.attachable(model, terminal_id);
                    &&& only_plane_changed(
                        old(self).connections.list@,
                        final(self).connections.list@,
                        at,
                    )
                    &&& plan == if attachable {
                        Some(before.plan(model, terminal_id))
                    } else {
                        None
                    }
                    &&& plane(final(self).connections.list@, at) == if attachable {
                        before.attaching(model, terminal_id)
                    } else {
                        before
                    }
                },
                None => plan is None && final(self).connections.list@ == old(
                    self,
                ).connections.list@,
            },
    {
        match self.find_plane(id) {
            Some(at) => {
                let ghost before = self.connections.list@;
                let mut plane: TerminalConnection = self.take_plane(at);
                let model: &ModelSnapshot = &self.connections.list[at].snapshot;
                let plan: Option<AttachPlan> = if are_rows_countable(model) {
                    plane.begin_attach(model, terminal_id)
                } else {
                    None
                };
                self.put_plane(at, plane);
                assert(self.connections.list@ =~= before.update(
                    at as int,
                    ManagedConnection { terminal: Some(plane), ..before[at as int] },
                ));
                plan
            },
            None => None,
        }
    }

    /// Gives up the attachment of a terminal whose thread could not be
    /// started; returns the attachment to cancel.
    pub fn attach_failed(
        &mut self,
        id: ConnectionId,
        store: &mut TerminalSnapshotStore,
        terminal_id: TerminalId,
    ) -> (attachment: Option<u64>)
        ensures
            final(self).last_notification == old(self).last_notification,
            match plane_at(old(self).connections.list@, id) {
                Some(at) => {
                    let before = plane(old(self).connections.list@, at);
                    &&& attachment == before.attachments.get(terminal_id.value)
                    &&& only_plane_changed(
                        old(self).connections.list@,
                        final(self).connections.list@,
                        at,
                    )
                    &&& plane(final(self).connections.list@, at) == before.released(terminal_id)
                    &&& final(store)@ == old(store)@.removed(terminal_id)
                },
                None => {
                    &&& attachment is None
                    &&& final(self).connections.list@ == old(self).connections.list@
                    &&& final(store)@ == old(store)@
                },
            },
    {
        match self.find_plane(id) {
            Some(at) => {
                let ghost before = self.connections.list@;
                let mut plane: TerminalConnection = self.take_plane(at);
                let attachment: Option<u64> = plane.release(store, terminal_id);
                self.put_plane(at, plane);
                assert(self.connections.list@ =~= before.update(
                    at as int,
                    ManagedConnection { terminal: Some(plane), ..before[at as int] },
                ));
                attachment
            },
            None => None,
        }
    }

    /// Replaces the attachment of a terminal whose stream has skipped; returns
    /// the attachment to cancel, and what the new one starts from if the
    /// connection's projection still shows the terminal and its rows can be
    /// counted.
    pub fn restart_terminal_attachment(
        &mut self,
        id: ConnectionId,
        store: &mut TerminalSnapshotStore,
        terminal_id: TerminalId,
    ) -> (restarted: (Option<u64>, Option<AttachPlan>))
        ensures
            final(self).last_notification == old(self).last_notification,
            match plane_at(old(self).connections.list@, id) {
                Some(at) => {
                    let model = old(self).connections.list@[at].snapshot;
                    let before = plane(old(self).connections.list@, at);
                    let released = before.released(terminal_id);
                    let shown = rows_countable(model) && first_size(
                        all_terminals(model.workspaces@),
                        terminal_id,
                    ) is Some;
                    &&& restarted.0 == before.attachments.get(terminal_id.value)
                    &&& restarted.1 == if shown {
                        Some(released.plan(model, terminal_id))
                    } else {
                        None
                    }
                    &&& only_plane_changed(
                        old(self).connections.list@,
                        final(self).connections.list@,
                        at,
                    )
                    &&& plane(final(self).connections.list@, at) == if shown {
                        released.attaching(model, terminal_id)
                    } else {
                        released
                    }
                    &&& final(store)@ == old(store)@.removed(terminal_id)
                },
                None => {
                    &&& restarted.0 is None
                    &&& restarted.1 is None
                    &&& final(self).connections.list@ == old(self).connections.list@
                    &&& final(store)@ == old(store)@
                },
            },
    {
        match self.find_plane(id) {
            Some(at) => {
                let ghost before = self.connections.list@;
                let mut plane: TerminalConnection = self.take_plane(at);
                let model: &ModelSnapshot = &self.connections.list[at].snapshot;
                let restarted: (Option<u64>, Option<AttachPlan>) = if are_rows_countable(model) {
                    plane.restart_terminal_attachment(store, model, terminal_id)
                } else {
                    (plane.release(store, terminal_id), None)
                };
                self.put_plane(at, plane);
                assert(self.connections.list@ =~= before.update(
                    at as int,
                    ManagedConnection { terminal: Some(plane), ..before[at as int] },
                ));
                restarted
            },
            None => (None, None),
        }
    }

    /// Drops a terminal that left the model; returns whether it was attached or
    /// about to be, and the attachment to cancel.
    pub fn detach_terminal(
        &mut self,
        id: ConnectionId,
        store: &mut TerminalSnapshotStore,
        terminal_id: TerminalId,
    ) -> (detached: (bool, Option<u64>))
        ensures
            final(self).last_notification == old(self).last_notification,
            match plane_at(old(self).connections.list@, id) {
                Some(at) => {
                    let before = plane(old(self).connections.list@, at);
                    &&& detached.0 == (before.attachments.contains_key(terminal_id.value)
                        || before.pending.contains(terminal_id.value))
                    &&& detached.1 == before.attachments.get(terminal_id.value)
                    &&& only_plane_changed(
                        old(self).connections.list@,
                        final(self).connections.list@,
                        at,
                    )
                    &&& plane(final(self).connections.list@, at) == if detached.0 {
                        before.forgotten(terminal_id)
                    } else {
                        before
                    }
                    &&& final(store)@ == if detached.0 {
                        old(store)@.removed(terminal_id)
                    } else {
                        old(store)@
                    }
                },
                None => {
                    &&& detached == (false, None::<u64>)
                    &&& final(self).connections.list@ == old(self).connections.list@
                    &&& final(store)@ == old(store)@
                },
            },
    {
        match self.find_plane(id) {
            Some(at) => {
                let ghost before = self.connections.list@;
                let mut plane: TerminalConnection = self.take_plane(at);
                let detached: (bool, Option<u64>) = plane.detach_terminal(store, terminal_id);
                self.put_plane(at, plane);
                assert(self.connections.list@ =~= before.update(
                    at as int,
                    ManagedConnection { terminal: Some(plane), ..before[at as int] },
                ));
                detached
            },
            None => (false, None),
        }
    }

    /// The newest immutable snapshot of a terminal.
    pub fn terminal_snapshot(&self, id: ConnectionId, terminal_id: TerminalId) -> (snapshot: Option<
        &Arc<TerminalSnapshot>,
    >)
        ensures
            match snapshot {
                Some(snapshot) => plane_at(self.connections.list@, id) matches Some(at) && plane(
                    self.connections.list@,
                    at,
                ).snapshots.get(terminal_id.value) == Some(*snapshot),
                None => match plane_at(self.connections.list@, id) {
                    Some(at) => !plane(self.connections.list@, at).snapshots.contains_key(
                        terminal_id.value,
                    ),
                    None => true,
                },
            },
    {
        match self.find_plane(id) {
            Some(at) => match &self.connections.list[at].terminal {
                Some(plane) => plane.terminal_snapshot(terminal_id),
                None => None,
            },
            None => None,
        }
    }

    /// The command that scrolls a terminal.
    pub fn terminal_scroll_by(&self, id: ConnectionId, terminal_id: TerminalId, delta: i64) -> (
    command: Option<TerminalEmulatorCommand>)
        ensures
            command == match plane_at(self.connections.list@, id) {
                Some(at) => if plane(self.connections.list@, at).commands.contains(
                    terminal_id.value,
                ) {
                    Some(TerminalEmulatorCommand::ScrollBy(delta))
                } else {
                    None
                },
                None => None,
            },
    {
        match self.find_plane(id) {
            Some(at) => match &self.connections.list[at].terminal {
                Some(plane) => plane.terminal_scroll_by(terminal_id, delta),
                None => None,
            },
            None => None,
        }
    }

    /// The command that scrolls a terminal to a position.
    pub fn terminal_scroll_to(&self, id: ConnectionId, terminal_id: TerminalId, target: i64) -> (
    command: Option<TerminalEmulatorCommand>)
        ensures
            command == match plane_at(self.connections.list@, id) {
                Some(at) => if plane(self.connections.list@, at).commands.contains(
                    terminal_id.value,
                ) {
                    Some(TerminalEmulatorCommand::ScrollTo(target))
                } else {
                    None
                },
                None => None,
            },
    {
        match self.find_plane(id) {
            Some(at) => match &self.connections.list[at].terminal {
                Some(plane) => plane.terminal_scroll_to(terminal_id, target),
                None => None,
            },
            None => None,
        }
    }

    /// The command that pins or releases a terminal's viewport.
    pub fn terminal_set_viewport_pinned(
        &self,
        id: ConnectionId,
        terminal_id: TerminalId,
        pinned: bool,
    ) -> (command: Option<TerminalEmulatorCommand>)
        ensures
            command == match plane_at(self.connections.list@, id) {
                Some(at) => if plane(self.connections.list@, at).commands.contains(
                    terminal_id.value,
                ) {
                    Some(TerminalEmulatorCommand::SetPinned(pinned))
                } else {
                    None
                },
                None => None,
            },
    {
        match self.find_plane(id) {
            Some(at) => match &self.connections.list[at].terminal {
                Some(plane) => plane.terminal_set_viewport_pinned(terminal_id, pinned),
                None => None,
            },
            None => None,
        }
    }

    /// How the physical size of a cell is passed on to a terminal's emulator.
    pub fn terminal_set_cell_size(
        &self,
        id: ConnectionId,
        terminal_id: TerminalId,
        cell_width: u16,
        cell_height: u16,
    ) -> (step: CellSizeStep)
        ensures
            step == match plane_at(self.connections.list@, id) {
                Some(at) => {
                    let plane = plane(self.connections.list@, at);
                    if plane.cell_sizes.get(terminal_id.value) == Some((cell_width, cell_height)) {
                        CellSizeStep::Known
                    } else if plane.commands.contains(terminal_id.value) {
                        CellSizeStep::Send(
                            TerminalEmulatorCommand::SetCellSize { cell_width, cell_height },
                        )
                    } else {
                        CellSizeStep::NoEmulator
                    }
                },
                None => CellSizeStep::NoEmulator,
            },
    {
        match self.find_plane(id) {
            Some(at) => match &self.connections.list[at].terminal {
                Some(plane) => plane.terminal_set_cell_size(terminal_id, cell_width, cell_height),
                None => CellSizeStep::NoEmulator,
            },
            None => CellSizeStep::NoEmulator,
        }
    }
}

/// A connection's terminals are found where the first connection of that id has
/// some, and a change of them leaves every other connection as it is.
pub proof fn terminals_are_found_by_their_connection(
    list: Seq<ManagedConnection>,
    after: Seq<ManagedConnection>,
    id: ConnectionId,
    at: int,
    other: int,
)
    requires
        0 <= other < list.len(),
        0 <= at < list.len(),
    ensures
        plane_at(list, id) matches Some(found) ==> 0 <= found < list.len() && list[found].id == id
            && list[found].terminal is Some,
        list[at].id == id && list[at].terminal is Some && (forall|i: int|
            0 <= i < at ==> (#[trigger] list[i]).id != id) ==> plane_at(list, id) == Some(at),
        only_plane_changed(list, after, at) ==> after.len() == list.len() && after[at].id
            == list[at].id && after[at].title == list[at].title && (other != at ==> after[other]
            == list[other]),
{
    the_first_connection_is_found(list, has_connection_id(id));
    match first_where(list, has_connection_id(id)) {
        Some(found) => {
            if found < at {
                assert(has_connection_id(id)(list[found]));
            } else if at < found && list[at].id == id {
                assert(has_connection_id(id)(list[at]));
            }
        },
        None => {
            if list[at].id == id {
                assert(has_connection_id(id)(list[at]));
            }
        },
    }
}

} // verus!

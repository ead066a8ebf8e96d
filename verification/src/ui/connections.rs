//! The servers that the windows are connected to.
use vstd::prelude::*;
use vstd::string::*;

use super::plane::TerminalConnection;
use super::tree::{all_terminals, lists, terminal_ids_in_snapshot, ModelSnapshot};
use crate::ids::{ConnectionId, TerminalId};
use crate::text::same_text;

verus! {

/// The least time between two applied projections of a server, in
/// nanoseconds. Upstream mailboxes already collapse intermediate revisions, so
/// this only guards against applying several within one fast display frame.
pub const SNAPSHOT_MIN_INTERVAL: u64 = 8_000_000;

#[derive(Debug, Clone, Copy, PartialEq, Eq, Structural)]
pub enum WorkspaceConnectionKind {
    Local,
    Remote,
}

/// What an SSH tunnel leads to.
#[derive(Debug)]
pub struct Tunnel {
    pub destination: String,
    pub remote_socket: String,
}

/// A connection to a server, with what the server projects.
#[derive(Debug)]
pub struct ManagedConnection {
    pub id: ConnectionId,
    pub title: String,
    pub kind: WorkspaceConnectionKind,
    pub snapshot: ModelSnapshot,
    pub tunnel: Option<Tunnel>,
    pub local_socket: Option<String>,
    /// When a projection was applied last.
    pub applied_at: Option<u64>,
    /// The terminals of the server, once its raw stream is there.
    pub terminal: Option<TerminalConnection>,
}

/// A connection as it is listed.
#[derive(Debug)]
pub struct ConnectionInfo {
    pub id: ConnectionId,
    pub name: String,
    pub kind: String,
    pub socket_path: Option<String>,
    pub remote_socket_path: Option<String>,
    pub destination: Option<String>,
}

/// A remote server that has been reached.
#[derive(Debug)]
pub struct RemoteConnectionSetup {
    pub destination: String,
    pub snapshot: ModelSnapshot,
    pub tunnel: Tunnel,
    pub local_socket: String,
    pub terminal: Option<TerminalConnection>,
}

/// A text that may be missing.
pub open spec fn optional_text(text: Option<String>) -> Option<Seq<char>> {
    match text {
        Some(text) => Some(text@),
        None => None,
    }
}

fn copy_optional(text: &Option<String>) -> (copy: Option<String>)
    ensures
        optional_text(copy) == optional_text(*text),
{
    match text {
        Some(text) => Some(text.as_str().to_owned()),
        None => None,
    }
}

/// Where the first connection stands that a predicate holds of.
pub open spec fn first_where(
    list: Seq<ManagedConnection>,
    holds: spec_fn(ManagedConnection) -> bool,
) -> Option<int>
    decreases list.len(),
{
    if list.len() == 0 {
        None
    } else if holds(list[0]) {
        Some(0)
    } else {
        match first_where(list.drop_first(), holds) {
            Some(at) => Some(at + 1),
            None => None,
        }
    }
}

proof fn lemma_first_where(
    list: Seq<ManagedConnection>,
    holds: spec_fn(ManagedConnection) -> bool,
    at: int,
)
    requires
        0 <= at <= list.len(),
        forall|i: int| 0 <= i < at ==> !holds(#[trigger] list[i]),
    ensures
        at < list.len() && holds(list[at]) ==> first_where(list, holds) == Some(at),
        at == list.len() ==> first_where(list, holds) is None,
    decreases at,
{
    if at > 0 {
        assert(!holds(list[0]));
        let rest = list.drop_first();
        assert forall|i: int| 0 <= i < at - 1 implies !holds(#[trigger] rest[i]) by {
            assert(rest[i] == list[i + 1]);
        }
        lemma_first_where(rest, holds, at - 1);
    }
}

/// The connection has the id.
pub open spec fn has_connection_id(id: ConnectionId) -> spec_fn(ManagedConnection) -> bool {
    |connection: ManagedConnection| connection.id == id
}

/// The connection is a remote one with the id.
pub open spec fn is_remote_with_id(id: ConnectionId) -> spec_fn(ManagedConnection) -> bool {
    |connection: ManagedConnection| connection.id == id && connection.kind is Remote
}

/// The connection is a remote one to the destination.
pub open spec fn leads_to(destination: Seq<char>) -> spec_fn(ManagedConnection) -> bool {
    |connection: ManagedConnection|
        connection.kind is Remote && connection.title@ == destination
}

/// What is done when a remote connection is asked for.
#[derive(Debug)]
pub enum ConnectStep {
    Existing(ConnectionId),
    Refused(String),
    Connect,
}

/// What became of a projection that a server sent.
#[derive(Debug)]
pub enum InstallStep {
    /// The connection is gone.
    Gone,
    /// A projection that is as new is there already.
    Stale,
    Installed { previous: ModelSnapshot },
}

/// The connections, the one of the start first.
#[derive(Debug)]
pub struct Connections {
    pub list: Vec<ManagedConnection>,
}

/// Calls `uuid::Uuid::new_v4` and reads the id as a number. Of the random bits
/// nothing is known; the version bits are those of a random UUID and the
/// variant bits those of RFC 9562. The call panics where the operating system
/// has no random bytes.
#[verifier::external_body]
fn random_id() -> (id: u128)
    ensures
        (id / 0x1000_0000_0000_0000_0000u128) % 16 == 4,
        (id / 0x4000_0000_0000_0000u128) % 4 == 2,
{
    uuid::Uuid::new_v4().as_u128()
}

impl Connections {
    /// The first connection, to the server on this machine.
    pub fn new(snapshot: ModelSnapshot) -> (connections: Self)
        ensures
            connections.list@.len() == 1,
            ({
                let local = connections.list@[0];
                &&& local.id == ConnectionId { value: 1 }
                &&& local.title@ == "Local"@
                &&& local.kind is Local
                &&& local.snapshot == snapshot
                &&& local.tunnel is None
                &&& local.local_socket is None
                &&& local.applied_at is None
                &&& local.terminal is None
            }),
    {
        let mut list: Vec<ManagedConnection> = Vec::new();
        list.push(
            ManagedConnection {
                id: ConnectionId::new(1),
                title: "Local".to_owned(),
                kind: WorkspaceConnectionKind::Local,
                snapshot,
                tunnel: None,
                local_socket: None,
                applied_at: None,
                terminal: None,
            },
        );
        Self { list }
    }

    /// Where the connection with an id stands.
    pub fn position(&self, id: ConnectionId) -> (at: Option<usize>)
        ensures
            match at {
                Some(at) => at < self.list@.len() && first_where(
                    self.list@,
                    has_connection_id(id),
                ) == Some(at as int) && self.list@[at as int].id == id,
                None => first_where(self.list@, has_connection_id(id)) is None,
            },
    {
        let ghost holds = has_connection_id(id);
        let mut at: usize = 0;
        while at < self.list.len()
            invariant
                holds == has_connection_id(id),
                at <= self.list@.len(),
                forall|i: int| 0 <= i < at ==> !holds(#[trigger] self.list@[i]),
            decreases self.list@.len() - at,
        {
            if self.list[at].id == id {
                proof {
                    lemma_first_where(self.list@, holds, at as int);
                }
                return Some(at);
            }
            at = at + 1;
        }
        proof {
            lemma_first_where(self.list@, holds, at as int);
        }
        None
    }

    /// Marks the connection of the start as an SSH-backed one.
    pub fn set_initial_remote_connection(
        &mut self,
        destination: String,
        tunnel: Tunnel,
        local_socket: String,
    )
        ensures
            final(self).list@ == if old(self).list@.len() == 0 {
                old(self).list@
            } else {
                old(self).list@.update(
                    0,
                    ManagedConnection {
                        title: destination,
                        kind: WorkspaceConnectionKind::Remote,
                        tunnel: Some(tunnel),
                        local_socket: Some(local_socket),
                        ..old(self).list@[0]
                    },
                )
            },
    {
        if self.list.len() == 0 {
            return;
        }
        let first: ManagedConnection = self.list.remove(0);
        self.list.insert(
            0,
            ManagedConnection {
                title: destination,
                kind: WorkspaceConnectionKind::Remote,
                tunnel: Some(tunnel),
                local_socket: Some(local_socket),
                id: first.id,
                snapshot: first.snapshot,
                applied_at: first.applied_at,
                terminal: first.terminal,
            },
        );
    }

    pub fn set_local_socket(&mut self, local_socket: String)
        ensures
            final(self).list@ == if old(self).list@.len() == 0 {
                old(self).list@
            } else {
                old(self).list@.update(
                    0,
                    ManagedConnection {
                        local_socket: Some(local_socket),
                        ..old(self).list@[0]
                    },
                )
            },
    {
        if self.list.len() == 0 {
            return;
        }
        let mut first: ManagedConnection = self.list.remove(0);
        first.local_socket = Some(local_socket);
        self.list.insert(0, first);
    }

    /// The connection that new windows show.
    pub fn first_connection(&self) -> (id: ConnectionId)
        ensures
            id == if self.list@.len() > 0 {
                self.list@[0].id
            } else {
                ConnectionId { value: 1 }
            },
    {
        if self.list.len() > 0 {
            self.list[0].id
        } else {
            ConnectionId::new(1)
        }
    }

    /// The connections as they are listed.
    pub fn connection_list(&self) -> (infos: Vec<ConnectionInfo>)
        ensures
            infos@.len() == self.list@.len(),
            forall|i: int|
                0 <= i < infos@.len() ==> describes(#[trigger] infos@[i], self.list@[i]),
    {
        let mut infos: Vec<ConnectionInfo> = Vec::new();
        let mut at: usize = 0;
        while at < self.list.len()
            invariant
                at <= self.list@.len(),
                infos@.len() == at,
                forall|i: int| 0 <= i < at ==> describes(#[trigger] infos@[i], self.list@[i]),
            decreases self.list@.len() - at,
        {
            let connection: &ManagedConnection = &self.list[at];
            let kind: String = match connection.kind {
                WorkspaceConnectionKind::Local => "local".to_owned(),
                WorkspaceConnectionKind::Remote => "remote".to_owned(),
            };
            let (remote_socket_path, destination) = match &connection.tunnel {
                Some(tunnel) => (
                    Some(tunnel.remote_socket.as_str().to_owned()),
                    Some(tunnel.destination.as_str().to_owned()),
                ),
                None => (None, None),
            };
            infos.push(
                ConnectionInfo {
                    id: connection.id,
                    name: connection.title.as_str().to_owned(),
                    kind,
                    socket_path: copy_optional(&connection.local_socket),
                    remote_socket_path,
                    destination,
                },
            );
            at = at + 1;
        }
        infos
    }

    /// The remote connection to a destination.
    pub fn find_remote(&self, destination: &str) -> (found: Option<ConnectionId>)
        ensures
            match found {
                Some(id) => first_where(self.list@, leads_to(destination@)) matches Some(at) && id
                    == self.list@[at].id,
                None => first_where(self.list@, leads_to(destination@)) is None,
            },
    {
        let ghost holds = leads_to(destination@);
        let mut at: usize = 0;
        while at < self.list.len()
            invariant
                holds == leads_to(destination@),
                at <= self.list@.len(),
                forall|i: int| 0 <= i < at ==> !holds(#[trigger] self.list@[i]),
            decreases self.list@.len() - at,
        {
            let connection: &ManagedConnection = &self.list[at];
            if matches!(connection.kind, WorkspaceConnectionKind::Remote) && same_text(
                connection.title.as_str(),
                destination,
            ) {
                proof {
                    lemma_first_where(self.list@, holds, at as int);
                }
                return Some(connection.id);
            }
            at = at + 1;
        }
        proof {
            lemma_first_where(self.list@, holds, at as int);
        }
        None
    }

    /// What is done when a connection to a destination is asked for.
    pub fn connect_remote(&self, destination: &str, control_ready: bool) -> (step: ConnectStep)
        ensures
            match step {
                ConnectStep::Existing(id) => first_where(
                    self.list@,
                    leads_to(destination@),
                ) matches Some(at) && id == self.list@[at].id,
                ConnectStep::Refused(text) => first_where(
                    self.list@,
                    leads_to(destination@),
                ) is None && !control_ready && text@ == "Water UI control session is not ready"@,
                ConnectStep::Connect => first_where(
                    self.list@,
                    leads_to(destination@),
                ) is None && control_ready,
            },
    {
        match self.find_remote(destination) {
            Some(id) => ConnectStep::Existing(id),
            None => if control_ready {
                ConnectStep::Connect
            } else {
                ConnectStep::Refused("Water UI control session is not ready".to_owned())
            },
        }
    }

    /// Adds a remote connection under an id, unless there is one to the same
    /// destination. Returns the id of the connection, and whether it is new.
    pub fn register_as(&mut self, setup: RemoteConnectionSetup, id: ConnectionId) -> (registered: (
        ConnectionId,
        bool,
    ))
        ensures
            match first_where(old(self).list@, leads_to(setup.destination@)) {
                Some(at) => registered == (old(self).list@[at].id, false) && final(self).list@
                    == old(self).list@,
                None => registered == (id, true) && final(self).list@ == old(self).list@.push(
                    remote_connection(setup, id),
                ),
            },
    {
        if let Some(existing) = self.find_remote(setup.destination.as_str()) {
            return (existing, false);
        }
        self.list.push(
            ManagedConnection {
                id,
                title: setup.destination,
                kind: WorkspaceConnectionKind::Remote,
                snapshot: setup.snapshot,
                tunnel: Some(setup.tunnel),
                local_socket: Some(setup.local_socket),
                applied_at: None,
                terminal: setup.terminal,
            },
        );
        (id, true)
    }

    /// Adds a remote connection under a fresh id, unless there is one to the
    /// same destination.
    pub fn register_remote_connection(&mut self, setup: RemoteConnectionSetup) -> (registered: (
        ConnectionId,
        bool,
    ))
        ensures
            match first_where(old(self).list@, leads_to(setup.destination@)) {
                Some(at) => registered == (old(self).list@[at].id, false) && final(self).list@
                    == old(self).list@,
                None => {
                    &&& registered.1
                    &&& registered.0 != ConnectionId { value: 1 }
                    &&& final(self).list@ == old(self).list@.push(
                        remote_connection(setup, registered.0),
                    )
                },
            },
    {
        let value: u128 = random_id();
        self.register_as(setup, ConnectionId::new(value))
    }

    /// Takes a remote connection out of the list.
    pub fn remove_remote_connection(&mut self, id: ConnectionId) -> (removed: Option<
        ManagedConnection,
    >)
        ensures
            match first_where(old(self).list@, is_remote_with_id(id)) {
                Some(at) => removed == Some(old(self).list@[at]) && final(self).list@ == old(
                    self,
                ).list@.remove(at),
                None => removed is None && final(self).list@ == old(self).list@,
            },
    {
        let ghost holds = is_remote_with_id(id);
        let mut at: usize = 0;
        while at < self.list.len()
            invariant
                holds == is_remote_with_id(id),
                self.list@ == old(self).list@,
                at <= self.list@.len(),
                forall|i: int| 0 <= i < at ==> !holds(#[trigger] self.list@[i]),
            decreases self.list@.len() - at,
        {
            if self.list[at].id == id && matches!(
                self.list[at].kind,
                WorkspaceConnectionKind::Remote
            ) {
                proof {
                    lemma_first_where(self.list@, holds, at as int);
                }
                return Some(self.list.remove(at));
            }
            at = at + 1;
        }
        proof {
            lemma_first_where(self.list@, holds, at as int);
        }
        None
    }

    /// How long a projection of a server has to wait before it is applied, in
    /// nanoseconds, if the connection is there.
    pub fn snapshot_wait(&self, id: ConnectionId, now: u64) -> (wait: Option<u64>)
        ensures
            match first_where(self.list@, has_connection_id(id)) {
                Some(at) => wait == Some(
                    match self.list@[at].applied_at {
                        Some(applied_at) => if applied_at <= now && now - applied_at
                            >= SNAPSHOT_MIN_INTERVAL {
                            0
                        } else if applied_at <= now {
                            (SNAPSHOT_MIN_INTERVAL - (now - applied_at)) as u64
                        } else {
                            SNAPSHOT_MIN_INTERVAL
                        },
                        None => 0,
                    },
                ),
                None => wait is None,
            },
    {
        match self.position(id) {
            Some(at) => match self.list[at].applied_at {
                Some(applied_at) => Some(
                    SNAPSHOT_MIN_INTERVAL.saturating_sub(now.saturating_sub(applied_at)),
                ),
                None => Some(0),
            },
            None => None,
        }
    }

    /// Installs a projection of a server, if it is newer than the one that is
    /// there.
    pub fn install_snapshot(&mut self, id: ConnectionId, snapshot: ModelSnapshot, now: u64) -> (
    step: InstallStep)
        ensures
            match first_where(old(self).list@, has_connection_id(id)) {
                Some(at) => if snapshot.state_revision > old(
                    self,
                ).list@[at].snapshot.state_revision {
                    &&& step == (InstallStep::Installed { previous: old(self).list@[at].snapshot })
                    &&& final(self).list@ == old(self).list@.update(
                        at,
                        ManagedConnection {
                            snapshot,
                            applied_at: Some(now),
                            ..old(self).list@[at]
                        },
                    )
                } else {
                    step is Stale && final(self).list@ == old(self).list@
                },
                None => step is Gone && final(self).list@ == old(self).list@,
            },
    {
        match self.position(id) {
            Some(at) => {
                if snapshot.state_revision <= self.list[at].snapshot.state_revision {
                    return InstallStep::Stale;
                }
                let mut connection: ManagedConnection = self.list.remove(at);
                let mut previous: ModelSnapshot = snapshot;
                std::mem::swap(&mut previous, &mut connection.snapshot);
                connection.applied_at = Some(now);
                self.list.insert(at, connection);
                assert(self.list@ =~= old(self).list@.update(at as int, connection));
                InstallStep::Installed { previous }
            },
            None => InstallStep::Gone,
        }
    }
}

/// The connection that a setup makes.
pub open spec fn remote_connection(setup: RemoteConnectionSetup, id: ConnectionId) -> ManagedConnection {
    ManagedConnection {
        id,
        title: setup.destination,
        kind: WorkspaceConnectionKind::Remote,
        snapshot: setup.snapshot,
        tunnel: Some(setup.tunnel),
        local_socket: Some(setup.local_socket),
        applied_at: None,
        terminal: setup.terminal,
    }
}

/// The info says what the connection is.
pub open spec fn describes(info: ConnectionInfo, connection: ManagedConnection) -> bool {
    &&& info.id == connection.id
    &&& info.name@ == connection.title@
    &&& info.kind@ == match connection.kind {
        WorkspaceConnectionKind::Local => "local"@,
        WorkspaceConnectionKind::Remote => "remote"@,
    }
    &&& optional_text(info.socket_path) == optional_text(connection.local_socket)
    &&& match connection.tunnel {
        Some(tunnel) => optional_text(info.remote_socket_path) == Some(tunnel.remote_socket@)
            && optional_text(info.destination) == Some(tunnel.destination@),
        None => info.remote_socket_path is None && info.destination is None,
    }
}

/// The terminals that a server shows no more, in the order of their ids.
pub fn vanished_terminals(previous: &ModelSnapshot, current: &ModelSnapshot) -> (gone: Vec<
    TerminalId,
>)
    ensures
        forall|i: int, j: int|
            0 <= i < j < gone@.len() ==> (#[trigger] gone@[i]).value < (#[trigger] gone@[j]).value,
        forall|id: u64| #[trigger]
            gone@.contains(TerminalId { value: id }) <==> lists(
                all_terminals(previous.workspaces@),
                id,
            ) && !lists(all_terminals(current.workspaces@), id),
{
    let before: Vec<TerminalId> = terminal_ids_in_snapshot(previous);
    let now: Vec<TerminalId> = terminal_ids_in_snapshot(current);
    let ghost shown = all_terminals(current.workspaces@);
    let mut gone: Vec<TerminalId> = Vec::new();
    let mut at: usize = 0;
    while at < before.len()
        invariant
            at <= before@.len(),
            forall|i: int, j: int|
                0 <= i < j < before@.len() ==> before@[i].value < before@[j].value,
            forall|id: u64|
                lists(shown, id) == exists|i: int|
                    0 <= i < now@.len() && (#[trigger] now@[i]).value == id,
            forall|i: int, j: int|
                0 <= i < j < gone@.len() ==> (#[trigger] gone@[i]).value < (
                #[trigger] gone@[j]).value,
            forall|i: int|
                0 <= i < gone@.len() ==> {
                    &&& at < before@.len() ==> (#[trigger] gone@[i]).value < before@[at as int].value
                    &&& !lists(shown, gone@[i].value)
                    &&& before@.take(at as int).contains(gone@[i])
                },
            forall|k: int|
                0 <= k < at && !lists(shown, (#[trigger] before@[k]).value) ==> gone@.contains(
                    before@[k],
                ),
        decreases before@.len() - at,
    {
        let id: TerminalId = before[at];
        let mut found: bool = false;
        let mut k: usize = 0;
        while k < now.len()
            invariant
                k <= now@.len(),
                found == exists|i: int| 0 <= i < k && (#[trigger] now@[i]).value == id.value,
            decreases now@.len() - k,
        {
            if now[k] == id {
                found = true;
            }
            assert(now@[k as int].value == id.value ==> found);
            k = k + 1;
        }
        let ghost earlier = gone@;
        if !found {
            gone.push(id);
            assert(gone@[gone@.len() - 1] == id);
        }
        proof {
            let longer = before@.take(at + 1);
            assert(longer[at as int] == id);
            assert forall|i: int| 0 <= i < gone@.len() implies longer.contains(
                #[trigger] gone@[i],
            ) by {
                if i < earlier.len() {
                    let place = choose|place: int|
                        0 <= place < before@.take(at as int).len() && before@.take(
                            at as int,
                        )[place] == earlier[i];
                    assert(before@.take(at as int).contains(earlier[i]));
                    assert(longer[place] == gone@[i]);
                }
            }
            assert forall|j: int|
                0 <= j < at + 1 && !lists(
                    shown,
                    (#[trigger] before@[j]).value,
                ) implies gone@.contains(before@[j]) by {
                if j < at {
                    assert(earlier.contains(before@[j]));
                    let place = choose|place: int|
                        0 <= place < earlier.len() && earlier[place] == before@[j];
                    assert(gone@[place] == before@[j]);
                }
            }
        }
        at = at + 1;
    }
    proof {
        assert forall|id: u64| #[trigger]
            gone@.contains(TerminalId { value: id }) <==> lists(
                all_terminals(previous.workspaces@),
                id,
            ) && !lists(all_terminals(current.workspaces@), id) by {
            let terminal = TerminalId { value: id };
            if gone@.contains(terminal) {
                let i = choose|i: int| 0 <= i < gone@.len() && gone@[i] == terminal;
                assert(before@.take(at as int).contains(gone@[i]));
                let k = choose|k: int|
                    0 <= k < before@.take(at as int).len() && before@.take(at as int)[k]
                        == terminal;
                assert(before@[k].value == id);
            }
            if lists(all_terminals(previous.workspaces@), id) && !lists(shown, id) {
                let k = choose|k: int| 0 <= k < before@.len() && (#[trigger] before@[k]).value == id;
                assert(gone@.contains(before@[k]));
                assert(before@[k] == terminal);
            }
        }
    }
    gone
}

/// The projection of a connection never goes back to an older revision.
pub proof fn projections_never_go_back(
    list: Seq<ManagedConnection>,
    at: int,
    snapshot: ModelSnapshot,
    now: u64,
)
    requires
        0 <= at < list.len(),
        snapshot.state_revision > list[at].snapshot.state_revision,
    ensures
        forall|i: int|
            0 <= i < list.len() ==> (#[trigger] list[i]).snapshot.state_revision <= list.update(
                at,
                ManagedConnection { snapshot, applied_at: Some(now), ..list[at] },
            )[i].snapshot.state_revision,
{
}

/// Removing a connection never removes one to the server on this machine.
pub proof fn local_connections_stay(list: Seq<ManagedConnection>, id: ConnectionId, at: int)
    requires
        first_where(list, is_remote_with_id(id)) == Some(at),
    ensures
        0 <= at < list.len(),
        list[at].kind is Remote,
        forall|i: int|
            0 <= i < list.len() && (#[trigger] list[i]).kind is Local ==> list.remove(at).contains(
                list[i],
            ),
{
    lemma_found(list, is_remote_with_id(id));
    assert forall|i: int| 0 <= i < list.len() && (#[trigger] list[i]).kind is Local implies list.remove(
        at,
    ).contains(list[i]) by {
        let left = list.remove(at);
        assert(left[if i < at { i } else { i - 1 }] == list[i]);
    }
}

proof fn lemma_found(list: Seq<ManagedConnection>, holds: spec_fn(ManagedConnection) -> bool)
    ensures
        match first_where(list, holds) {
            Some(at) => 0 <= at < list.len() && holds(list[at]),
            None => true,
        },
    decreases list.len(),
{
    if list.len() > 0 && !holds(list[0]) {
        lemma_found(list.drop_first(), holds);
    }
}

/// What is looked for is the first connection that holds.
pub proof fn the_first_connection_is_found(
    list: Seq<ManagedConnection>,
    holds: spec_fn(ManagedConnection) -> bool,
)
    ensures
        match first_where(list, holds) {
            Some(at) => 0 <= at < list.len() && holds(list[at]) && forall|i: int|
                0 <= i < at ==> !holds(#[trigger] list[i]),
            None => forall|i: int| 0 <= i < list.len() ==> !holds(#[trigger] list[i]),
        },
    decreases list.len(),
{
    if list.len() > 0 {
        let rest = list.drop_first();
        the_first_connection_is_found(rest, holds);
        assert forall|i: int| 0 < i < list.len() implies #[trigger] list[i] == rest[i - 1] by {}
    }
}

/// A connection is looked up by its id, and a remote one by where it leads.
pub proof fn connections_are_told_apart(connection: ManagedConnection, id: ConnectionId)
    ensures
        has_connection_id(id)(connection) == (connection.id == id),
        is_remote_with_id(id)(connection) == (connection.id == id && connection.kind
            == WorkspaceConnectionKind::Remote),
        leads_to(connection.title@)(connection) == (connection.kind
            == WorkspaceConnectionKind::Remote),
        connection.kind == WorkspaceConnectionKind::Local ==> !leads_to(connection.title@)(
            connection,
        ) && !is_remote_with_id(id)(connection),
{
}

/// A connection that is set up has the id that it is given, leads where it was
/// asked to lead, and starts with what the server projected.
pub proof fn a_connection_is_what_was_set_up(setup: RemoteConnectionSetup, id: ConnectionId)
    ensures
        ({
            let connection = remote_connection(setup, id);
            &&& connection.id == id
            &&& connection.kind == WorkspaceConnectionKind::Remote
            &&& connection.title == setup.destination
            &&& connection.snapshot == setup.snapshot
            &&& connection.tunnel == Some(setup.tunnel)
            &&& connection.local_socket == Some(setup.local_socket)
            &&& connection.terminal == setup.terminal
        }),
{
}

/// What is listed of a connection is its id, its name, its kind, and where it
/// leads.
pub proof fn a_listed_connection_is_described(info: ConnectionInfo, connection: ManagedConnection)
    requires
        describes(info, connection),
    ensures
        info.id == connection.id,
        info.name@ == connection.title@,
        connection.kind == WorkspaceConnectionKind::Local ==> info.kind@ == "local"@,
        connection.kind == WorkspaceConnectionKind::Remote ==> info.kind@ == "remote"@,
        connection.tunnel is Some ==> info.destination is Some && info.destination->0@
            == connection.tunnel->0.destination@ && info.remote_socket_path is Some
            && info.remote_socket_path->0@ == connection.tunnel->0.remote_socket@,
        connection.tunnel is None ==> info.destination is None && info.remote_socket_path is None,
        connection.local_socket is Some ==> info.socket_path is Some && info.socket_path->0@
            == connection.local_socket->0@,
        connection.local_socket is None ==> info.socket_path is None,
{
}

} // verus!

//! What the terminal workers tell the windows.
use std::collections::VecDeque;
use std::sync::Arc;

use vstd::prelude::*;

use crate::idmap::IdMap;
use crate::ids::TerminalId;
use crate::num::min_of;
use crate::terminal::snapshot::TerminalSnapshot;
use crate::terminal::stream::MAX_OUTPUT_EVENT_BYTES;

verus! {

/// Maximum decoded terminal output parsed by the windows in one foreground
/// turn. Dense ANSI streams are CPU-heavy even when the PTY and socket finish
/// quickly, so the event loop must regain control between bounded slices.
pub const MAX_TERMINAL_BYTES_PER_UI_TURN: usize = MAX_OUTPUT_EVENT_BYTES;

pub const MAX_TERMINAL_MESSAGES_PER_UI_TURN: usize = 64;

/// One attachment of a terminal: which one, and whether it is still wanted.
#[derive(Debug, Clone, Copy, PartialEq, Eq, Structural)]
pub struct TerminalAttachmentState {
    pub id: u64,
    pub active: bool,
}

impl TerminalAttachmentState {
    pub fn new(id: u64) -> (attachment: Self)
        ensures
            attachment == (TerminalAttachmentState { id, active: true }),
    {
        Self { id, active: true }
    }

    pub fn is_active(&self) -> (active: bool)
        ensures
            active == self.active,
    {
        self.active
    }

    pub fn cancel(&mut self)
        ensures
            *final(self) == (TerminalAttachmentState { active: false, ..*old(self) }),
    {
        self.active = false;
    }
}

/// What a message is about.
#[derive(Debug)]
pub enum TerminalEventKind {
    Attached { snapshot: Arc<TerminalSnapshot> },
    SnapshotReady,
    PtyWrites { writes: Vec<Vec<u8>> },
    Restart,
    /// The terminal's pump ended (process exit, detach, session end).
    Detached,
}

/// A message of a terminal's worker.
#[derive(Debug)]
pub struct TerminalEventMsg {
    pub terminal_id: TerminalId,
    pub attachment: TerminalAttachmentState,
    pub kind: TerminalEventKind,
}

impl TerminalEventMsg {
    /// How much of a turn the message takes. Messages of attachments that are
    /// not wanted any more take nothing.
    pub open spec fn cost(self) -> int {
        if self.attachment.active && self.kind is SnapshotReady {
            MAX_TERMINAL_BYTES_PER_UI_TURN as int
        } else {
            0
        }
    }

    pub fn terminal_id(&self) -> (id: TerminalId)
        ensures
            id == self.terminal_id,
    {
        self.terminal_id
    }

    pub fn is_active(&self) -> (active: bool)
        ensures
            active == self.attachment.active,
    {
        self.attachment.active
    }

    pub fn ui_cost_bytes(&self) -> (bytes: usize)
        ensures
            bytes == self.cost(),
    {
        if !self.attachment.active {
            return 0;
        }
        match &self.kind {
            TerminalEventKind::SnapshotReady => MAX_TERMINAL_BYTES_PER_UI_TURN,
            _ => 0,
        }
    }
}

/// How many messages one turn takes, when `at` of them are taken already and
/// cost `bytes`. The first message may exceed the budget; after it, one that
/// would cross the budget is left.
pub open spec fn turn_end(messages: Seq<TerminalEventMsg>, at: int, bytes: int) -> int
    decreases messages.len() - at,
{
    if at < 0 || at >= messages.len() || at >= MAX_TERMINAL_MESSAGES_PER_UI_TURN {
        at
    } else if bytes > 0 && min_of(bytes + messages[at].cost(), usize::MAX as int)
        > MAX_TERMINAL_BYTES_PER_UI_TURN {
        at
    } else {
        turn_end(messages, at + 1, min_of(bytes + messages[at].cost(), usize::MAX as int))
    }
}

/// A message is left over because of the budget and not because of the number
/// of messages.
pub open spec fn carries(messages: Seq<TerminalEventMsg>) -> bool {
    let end = turn_end(messages, 1, messages[0].cost());
    end < messages.len() && end < MAX_TERMINAL_MESSAGES_PER_UI_TURN
}

/// The messages that are waiting, with one that was carried over in front.
pub open spec fn waiting(
    pending: Option<TerminalEventMsg>,
    queue: Seq<TerminalEventMsg>,
) -> Seq<TerminalEventMsg> {
    match pending {
        Some(message) => seq![message] + queue,
        None => queue,
    }
}

/// Takes one strictly bounded foreground batch. The first event may exceed
/// the byte budget, but it is processed alone in that case; an event that would
/// cross the limit is carried into the next turn instead of being lost or
/// reordered.
pub fn recv_terminal_event_batch(
    queue: &mut VecDeque<TerminalEventMsg>,
    pending: Option<TerminalEventMsg>,
) -> (received: Option<(Vec<TerminalEventMsg>, Option<TerminalEventMsg>)>)
    ensures
        ({
            let messages = waiting(pending, old(queue)@);
            match received {
                None => messages.len() == 0 && final(queue)@ == old(queue)@,
                Some((batch, carried)) => {
                    let end = turn_end(messages, 1, messages[0].cost());
                    &&& messages.len() > 0
                    &&& batch@ == messages.take(end)
                    &&& match carried {
                        Some(message) => carries(messages) && message == messages[end]
                            && final(queue)@ == messages.skip(end + 1),
                        None => !carries(messages) && final(queue)@ == messages.skip(end),
                    }
                },
            }
        }),
{
    let ghost messages = waiting(pending, queue@);
    let first: TerminalEventMsg = match pending {
        Some(message) => message,
        None => match queue.pop_front() {
            Some(message) => message,
            None => {
                return None;
            },
        },
    };
    assert(messages[0] == first);
    assert(queue@ =~= messages.skip(1));
    let mut bytes: usize = first.ui_cost_bytes();
    let mut batch: Vec<TerminalEventMsg> = Vec::new();
    batch.push(first);
    assert(batch@ =~= messages.take(1));
    let ghost end = turn_end(messages, 1, messages[0].cost());
    while batch.len() < MAX_TERMINAL_MESSAGES_PER_UI_TURN && queue.len() > 0
        invariant
            1 <= batch@.len() <= MAX_TERMINAL_MESSAGES_PER_UI_TURN,
            batch@.len() <= messages.len(),
            batch@ == messages.take(batch@.len() as int),
            queue@ == messages.skip(batch@.len() as int),
            end == turn_end(messages, 1, messages[0].cost()),
            end == turn_end(messages, batch@.len() as int, bytes as int),
            messages == waiting(pending, old(queue)@),
        decreases queue@.len(),
    {
        let ghost at = batch@.len() as int;
        if let Some(message) = queue.pop_front() {
            assert(message == messages[at]);
            assert(queue@ =~= messages.skip(at + 1));
            let message_bytes: usize = message.ui_cost_bytes();
            if bytes > 0 && bytes.saturating_add(message_bytes) > MAX_TERMINAL_BYTES_PER_UI_TURN {
                return Some((batch, Some(message)));
            }
            bytes = bytes.saturating_add(message_bytes);
            batch.push(message);
            assert(batch@ =~= messages.take(at + 1));
        }
    }
    Some((batch, None))
}

/// Nothing is lost and nothing is reordered: the batch, what is carried over
/// and what is left are the messages that were waiting.
pub proof fn a_turn_loses_nothing(messages: Seq<TerminalEventMsg>)
    requires
        messages.len() > 0,
    ensures
        ({
            let end = turn_end(messages, 1, messages[0].cost());
            &&& 1 <= end <= messages.len()
            &&& end <= MAX_TERMINAL_MESSAGES_PER_UI_TURN
            &&& messages.take(end) + messages.skip(end) == messages
            &&& carries(messages) ==> messages.take(end) + seq![messages[end]] + messages.skip(
                end + 1,
            ) == messages
        }),
{
    let end = turn_end(messages, 1, messages[0].cost());
    lemma_turn_end(messages, 1, messages[0].cost());
    assert(messages.take(end) + messages.skip(end) =~= messages);
    if carries(messages) {
        assert(messages.take(end) + seq![messages[end]] + messages.skip(end + 1) =~= messages);
    }
}

proof fn lemma_turn_end(messages: Seq<TerminalEventMsg>, at: int, bytes: int)
    requires
        1 <= at <= messages.len(),
        at <= MAX_TERMINAL_MESSAGES_PER_UI_TURN,
    ensures
        at <= turn_end(messages, at, bytes) <= messages.len(),
        turn_end(messages, at, bytes) <= MAX_TERMINAL_MESSAGES_PER_UI_TURN,
    decreases messages.len() - at,
{
    if at < messages.len() && at < MAX_TERMINAL_MESSAGES_PER_UI_TURN && !(bytes > 0 && min_of(
        bytes + messages[at].cost(),
        usize::MAX as int,
    ) > MAX_TERMINAL_BYTES_PER_UI_TURN) {
        lemma_turn_end(messages, at + 1, min_of(bytes + messages[at].cost(), usize::MAX as int));
    }
}

/// The latest snapshot of a terminal, and of which attachment.
#[derive(Debug)]
pub struct PendingTerminalSnapshot {
    pub attachment: u64,
    pub snapshot: Arc<TerminalSnapshot>,
}

/// The snapshots that wait for the windows: the latest of each terminal, and
/// the terminals whose snapshot was announced.
#[verifier::ext_equal]
pub struct StoreView {
    pub pending: Map<u64, PendingTerminalSnapshot>,
    pub notified: Set<u64>,
}

impl StoreView {
    pub open spec fn empty() -> StoreView {
        StoreView { pending: Map::empty(), notified: Set::empty() }
    }

    /// A newer snapshot takes the place of an older one.
    pub open spec fn with_snapshot(
        self,
        id: TerminalId,
        attachment: u64,
        snapshot: Arc<TerminalSnapshot>,
    ) -> StoreView {
        StoreView {
            pending: self.pending.insert(
                id.value,
                PendingTerminalSnapshot { attachment, snapshot },
            ),
            notified: self.notified.insert(id.value),
        }
    }

    pub open spec fn removed(self, id: TerminalId) -> StoreView {
        StoreView {
            pending: self.pending.remove(id.value),
            notified: self.notified.remove(id.value),
        }
    }

    /// A snapshot of the attachment waits.
    pub open spec fn has(self, id: TerminalId, attachment: u64) -> bool {
        self.pending.contains_key(id.value) && self.pending[id.value].attachment == attachment
    }
}

/// Keeps only the latest render snapshot per terminal. Snapshot notifications
/// are tiny; the actual immutable snapshot lives in this coalescing slot
/// instead of piling up in a queue when the windows are busy.
#[derive(Debug)]
pub struct TerminalSnapshotStore {
    pending: IdMap<PendingTerminalSnapshot>,
    notified: IdMap<()>,
}

impl View for TerminalSnapshotStore {
    type V = StoreView;

    closed spec fn view(&self) -> StoreView {
        StoreView { pending: self.pending@, notified: self.notified@.dom() }
    }
}

impl TerminalSnapshotStore {
    pub fn new() -> (store: Self)
        ensures
            store@ == StoreView::empty(),
    {
        let store = Self { pending: IdMap::new(), notified: IdMap::new() };
        assert(store@ =~= StoreView::empty());
        store
    }

    /// Keeps a snapshot; returns whether the windows are to be told, which
    /// they are once until they take it.
    pub fn publish_snapshot(
        &mut self,
        terminal_id: TerminalId,
        attachment: TerminalAttachmentState,
        snapshot: Arc<TerminalSnapshot>,
    ) -> (notify: bool)
        ensures
            if attachment.active {
                &&& final(self)@ == old(self)@.with_snapshot(terminal_id, attachment.id, snapshot)
                &&& notify == !old(self)@.notified.contains(terminal_id.value)
            } else {
                final(self)@ == old(self)@ && !notify
            },
    {
        if !attachment.active {
            return false;
        }
        let _ = self.pending.insert(
            terminal_id.value,
            PendingTerminalSnapshot { attachment: attachment.id, snapshot },
        );
        let earlier: Option<()> = self.notified.insert(terminal_id.value, ());
        assert(self@ =~= old(self)@.with_snapshot(terminal_id, attachment.id, snapshot));
        earlier.is_none()
    }

    /// Takes the snapshot of an attachment.
    pub fn take_snapshot(&mut self, terminal_id: TerminalId, attachment: u64) -> (snapshot: Option<
        Arc<TerminalSnapshot>,
    >)
        ensures
            if old(self)@.has(terminal_id, attachment) {
                &&& snapshot == Some(old(self)@.pending[terminal_id.value].snapshot)
                &&& final(self)@ == old(self)@.removed(terminal_id)
            } else {
                snapshot is None && final(self)@ == old(self)@
            },
    {
        let matches: bool = match self.pending.get(terminal_id.value) {
            Some(pending) => pending.attachment == attachment,
            None => false,
        };
        if !matches {
            return None;
        }
        let pending: Option<PendingTerminalSnapshot> = self.pending.remove(terminal_id.value);
        let _ = self.notified.remove(terminal_id.value);
        assert(self@ =~= old(self)@.removed(terminal_id));
        match pending {
            Some(pending) => Some(pending.snapshot),
            None => None,
        }
    }

    pub fn remove(&mut self, terminal_id: TerminalId)
        ensures
            final(self)@ == old(self)@.removed(terminal_id),
    {
        let _ = self.pending.remove(terminal_id.value);
        let _ = self.notified.remove(terminal_id.value);
        assert(self@ =~= old(self)@.removed(terminal_id));
    }

    /// Forgets the snapshot of an attachment that could not be announced.
    pub fn remove_if(&mut self, terminal_id: TerminalId, attachment: u64)
        ensures
            final(self)@ == if old(self)@.has(terminal_id, attachment) {
                old(self)@.removed(terminal_id)
            } else {
                old(self)@
            },
    {
        let matches: bool = match self.pending.get(terminal_id.value) {
            Some(pending) => pending.attachment == attachment,
            None => false,
        };
        if matches {
            self.remove(terminal_id);
        }
    }
}

/// Whatever was published before, the snapshot that is taken is the one that
/// was published last.
pub proof fn the_latest_snapshot_is_taken(
    store: StoreView,
    id: TerminalId,
    attachment: u64,
    earlier: Arc<TerminalSnapshot>,
    latest: Arc<TerminalSnapshot>,
)
    ensures
        ({
            let published = store.with_snapshot(id, attachment, earlier).with_snapshot(
                id,
                attachment,
                latest,
            );
            &&& published.has(id, attachment)
            &&& published.pending[id.value].snapshot == latest
        }),
{
}

/// A snapshot that the windows have not taken is announced once only.
pub proof fn a_snapshot_is_announced_once(
    store: StoreView,
    id: TerminalId,
    attachment: u64,
    snapshot: Arc<TerminalSnapshot>,
)
    ensures
        store.with_snapshot(id, attachment, snapshot).notified.contains(id.value),
        !store.with_snapshot(id, attachment, snapshot).removed(id).notified.contains(id.value),
{
}

/// Keeps the newer of two snapshots. The live worker can publish a newer
/// snapshot after replay wakes the windows but before a batch is consumed, so
/// the attach-time state replaces nothing.
pub fn merge_terminal_snapshot(
    latest_snapshot: &mut Option<Arc<TerminalSnapshot>>,
    snapshot: Arc<TerminalSnapshot>,
    from_attach: bool,
)
    ensures
        *final(latest_snapshot) == if from_attach && *old(latest_snapshot) is Some {
            *old(latest_snapshot)
        } else {
            Some(snapshot)
        },
{
    if !from_attach || latest_snapshot.is_none() {
        *latest_snapshot = Some(snapshot);
    }
}

/// A screen that is ready takes a turn of its own, other messages take nothing
/// of it, and neither does a message that is wanted no longer.
pub proof fn a_screen_fills_a_turn(message: TerminalEventMsg)
    ensures
        message.attachment.active && message.kind is SnapshotReady ==> message.cost() == 65536,
        !message.attachment.active || !(message.kind is SnapshotReady) ==> message.cost() == 0,
{
}

/// A turn takes up to 64 messages, and at most one screen that is ready.
pub proof fn a_turn_takes_what_fits(messages: Seq<TerminalEventMsg>, at: int, bytes: int)
    requires
        0 <= at <= messages.len(),
        at <= 64,
        bytes == 0 || bytes == 65536,
    ensures
        ({
            let end = turn_end(messages, at, bytes);
            &&& at <= end <= messages.len()
            &&& end <= 64
            &&& forall|i: int, j: int|
                at <= i < j < end ==> (#[trigger] messages[i]).cost() == 0 || (
                #[trigger] messages[j]).cost() == 0
            &&& bytes > 0 ==> forall|i: int| at <= i < end ==> (#[trigger] messages[i]).cost() == 0
            &&& end < messages.len() && end < 64 ==> messages[end].cost() > 0 && (bytes > 0
                || exists|i: int| at <= i < end && (#[trigger] messages[i]).cost() > 0)
        }),
    decreases messages.len() - at,
{
    if at < messages.len() && at < 64 {
        let more = bytes + messages[at].cost();
        if !(bytes > 0 && more > 65536) {
            a_turn_takes_what_fits(messages, at + 1, more);
        }
    }
}

/// A screen is found under its terminal and its attachment, and no other is; what
/// was removed is not found.
pub proof fn a_screen_is_found_under_its_attachment(
    store: StoreView,
    id: TerminalId,
    attachment: u64,
    other: u64,
    snapshot: Arc<TerminalSnapshot>,
)
    requires
        other != attachment,
    ensures
        store.with_snapshot(id, attachment, snapshot).has(id, attachment),
        !store.with_snapshot(id, attachment, snapshot).has(id, other),
        !store.removed(id).has(id, attachment),
        !StoreView::empty().has(id, attachment),
        !StoreView::empty().notified.contains(id.value),
{
}

/// A message is carried over to the next turn where the turn ended before it for
/// its size.
pub proof fn a_message_is_carried_over(messages: Seq<TerminalEventMsg>)
    requires
        messages.len() > 0,
    ensures
        ({
            let end = turn_end(messages, 1, messages[0].cost());
            &&& carries(messages) == (end < messages.len() && end < 64)
            &&& carries(messages) ==> messages[end].cost() == 65536
        }),
        waiting(None, messages) == messages,
        waiting(Some(messages[0]), messages.drop_first()) == messages,
{
    a_turn_takes_what_fits(messages, 1, messages[0].cost());
    assert(seq![messages[0]] + messages.drop_first() =~= messages);
}

} // verus!

//! One connection's terminal plane: which terminals are attached, what their
//! emulators were last told, and the snapshots that the windows draw.
//!
//! Attachment threads own the emulators; the windows send viewport commands
//! and consume immutable snapshots.
use std::sync::Arc;

use vstd::prelude::*;

use super::events::{
    merge_terminal_snapshot, StoreView, TerminalAttachmentState, TerminalEventKind,
    TerminalEventMsg, TerminalSnapshotStore,
};
use super::tree::{
    all_terminals, first_size, granted_lines, is_protected, rows_countable, terminal_scrollback_lines,
    terminal_scrollback_protected, terminal_size_in_snapshot, ModelSnapshot,
};
use crate::idmap::{has_id, in_order, lemma_entry, lemma_finite, lemma_in_order, lemma_map_values, map_of, ordered, IdMap};
use crate::ids::TerminalId;
use crate::terminal::snapshot::TerminalSnapshot;
use crate::terminal::TerminalTheme;

verus! {

/// What an emulator is told by the windows.
#[derive(Debug, Clone, Copy, PartialEq, Eq, Structural)]
pub enum TerminalEmulatorCommand {
    ScrollBy(i64),
    ScrollTo(i64),
    SetPinned(bool),
    SetScrollbackLines(usize),
    SetScrollbackProtected(bool),
    SetCellSize { cell_width: u16, cell_height: u16 },
}

/// The state of a terminal plane.
#[verifier::ext_equal]
pub struct PlaneView {
    /// The terminals whose replay has not been drawn yet.
    pub pending: Set<u64>,
    /// The attachment of each attached terminal.
    pub attachments: Map<u64, u64>,
    /// The terminals whose emulator takes commands.
    pub commands: Set<u64>,
    pub cell_sizes: Map<u64, (u16, u16)>,
    /// The history limit and protection that each emulator was told last.
    pub desired: Map<u64, (usize, bool)>,
    pub snapshots: Map<u64, Arc<TerminalSnapshot>>,
    /// The number of the next attachment.
    pub next_attachment: u64,
    pub scrollback_lines: usize,
    pub inactive_scrollback_lines: usize,
    pub max_total_scrollback_bytes: usize,
    pub theme: TerminalTheme,
}

/// What an emulator is to be told of its history.
#[derive(Debug, Clone, Copy, PartialEq, Eq, Structural)]
pub struct ScrollbackUpdate {
    pub terminal_id: TerminalId,
    pub lines: usize,
    pub protected: bool,
}

/// What a terminal's attachment starts from.
#[derive(Debug, Clone, Copy, PartialEq, Eq, Structural)]
pub struct AttachPlan {
    pub attachment: u64,
    pub scrollback_lines: usize,
    pub scrollback_protected: bool,
    pub theme: TerminalTheme,
}

impl PlaneView {
    pub open spec fn empty(
        scrollback_lines: usize,
        inactive_scrollback_lines: usize,
        max_total_scrollback_bytes: usize,
        theme: TerminalTheme,
    ) -> PlaneView {
        PlaneView {
            pending: Set::empty(),
            attachments: Map::empty(),
            commands: Set::empty(),
            cell_sizes: Map::empty(),
            desired: Map::empty(),
            snapshots: Map::empty(),
            next_attachment: 0,
            scrollback_lines,
            inactive_scrollback_lines,
            max_total_scrollback_bytes,
            theme,
        }
    }

    /// The history limit that a terminal of the model is to have.
    pub open spec fn lines_for(self, model: ModelSnapshot, id: TerminalId) -> usize {
        granted_lines(
            model,
            id,
            self.scrollback_lines as int,
            self.inactive_scrollback_lines as int,
            self.max_total_scrollback_bytes as int,
        ) as usize
    }

    /// The terminal can be attached: the model shows it, and it is neither
    /// attached nor about to be.
    pub open spec fn attachable(self, model: ModelSnapshot, id: TerminalId) -> bool {
        &&& first_size(all_terminals(model.workspaces@), id) is Some
        &&& !self.commands.contains(id.value)
        &&& !self.pending.contains(id.value)
    }

    pub open spec fn plan(self, model: ModelSnapshot, id: TerminalId) -> AttachPlan {
        AttachPlan {
            attachment: self.next_attachment,
            scrollback_lines: self.lines_for(model, id),
            scrollback_protected: is_protected(model.agents@, id),
            theme: self.theme,
        }
    }

    /// What a terminal's emulator is to be told of its history.
    pub open spec fn update_for(self, model: ModelSnapshot, id: u64) -> ScrollbackUpdate {
        ScrollbackUpdate {
            terminal_id: TerminalId { value: id },
            lines: self.lines_for(model, TerminalId { value: id }),
            protected: is_protected(model.agents@, TerminalId { value: id }),
        }
    }

    /// A terminal's emulator takes commands and was told something else last.
    pub open spec fn is_stale(self, model: ModelSnapshot, id: u64) -> bool {
        let update = self.update_for(model, id);
        &&& self.commands.contains(id)
        &&& self.desired.get(id) != Some((update.lines, update.protected))
    }

    /// The plane once the attachment of a terminal has begun.
    pub open spec fn attaching(self, model: ModelSnapshot, id: TerminalId) -> PlaneView {
        let plan = self.plan(model, id);
        PlaneView {
            pending: self.pending.insert(id.value),
            attachments: self.attachments.insert(id.value, plan.attachment),
            commands: self.commands.insert(id.value),
            desired: self.desired.insert(
                id.value,
                (plan.scrollback_lines, plan.scrollback_protected),
            ),
            next_attachment: if self.next_attachment == u64::MAX {
                0
            } else {
                (self.next_attachment + 1) as u64
            },
            ..self
        }
    }

    /// The plane without a terminal's attachment; its last snapshot stays.
    pub open spec fn released(self, id: TerminalId) -> PlaneView {
        PlaneView {
            pending: self.pending.remove(id.value),
            attachments: self.attachments.remove(id.value),
            commands: self.commands.remove(id.value),
            cell_sizes: self.cell_sizes.remove(id.value),
            desired: self.desired.remove(id.value),
            ..self
        }
    }

    /// The plane without a terminal that left the model.
    pub open spec fn forgotten(self, id: TerminalId) -> PlaneView {
        PlaneView { snapshots: self.snapshots.remove(id.value), ..self.released(id) }
    }

    /// The plane once a terminal's pump has ended.
    pub open spec fn ended(self, id: TerminalId) -> PlaneView {
        PlaneView { desired: self.desired, ..self.forgotten(id) }
    }

    /// Two planes agree on a terminal.
    pub open spec fn agrees(self, other: PlaneView, id: u64) -> bool {
        &&& self.pending.contains(id) == other.pending.contains(id)
        &&& self.commands.contains(id) == other.commands.contains(id)
        &&& self.attachments.contains_key(id) == other.attachments.contains_key(id)
        &&& self.attachments[id] == other.attachments[id]
        &&& self.cell_sizes.contains_key(id) == other.cell_sizes.contains_key(id)
        &&& self.cell_sizes[id] == other.cell_sizes[id]
        &&& self.desired.contains_key(id) == other.desired.contains_key(id)
        &&& self.desired[id] == other.desired[id]
        &&& self.snapshots.contains_key(id) == other.snapshots.contains_key(id)
        &&& self.snapshots[id] == other.snapshots[id]
    }
}

/// What the messages of one terminal add up to.
#[verifier::ext_equal]
pub struct GatherView {
    pub store: StoreView,
    pub latest: Option<Arc<TerminalSnapshot>>,
    pub attached: bool,
    pub detached: bool,
    pub writes: Seq<(TerminalId, Seq<u8>)>,
    pub resync: Seq<TerminalId>,
}

/// The answers of a terminal, each with the terminal that it goes to.
pub open spec fn addressed(id: TerminalId, writes: Seq<Vec<u8>>) -> Seq<(TerminalId, Seq<u8>)> {
    writes.map_values(|bytes: Vec<u8>| (id, bytes@))
}

impl GatherView {
    /// With one more message. An attach-time snapshot replaces nothing.
    pub open spec fn with_message(self, message: TerminalEventMsg) -> GatherView {
        let id = message.terminal_id;
        match message.kind {
            TerminalEventKind::Attached { snapshot } => GatherView {
                attached: true,
                latest: if self.latest is Some {
                    self.latest
                } else {
                    Some(snapshot)
                },
                ..self
            },
            TerminalEventKind::SnapshotReady => if self.store.has(id, message.attachment.id) {
                GatherView {
                    latest: Some(self.store.pending[id.value].snapshot),
                    store: self.store.removed(id),
                    ..self
                }
            } else {
                self
            },
            TerminalEventKind::PtyWrites { writes } => GatherView {
                writes: self.writes + addressed(id, writes@),
                ..self
            },
            TerminalEventKind::Restart => GatherView { resync: self.resync.push(id), ..self },
            TerminalEventKind::Detached => GatherView { detached: true, ..self },
        }
    }

    /// With some messages, in their order.
    pub open spec fn with_messages(self, messages: Seq<TerminalEventMsg>) -> GatherView
        decreases messages.len(),
    {
        if messages.len() == 0 {
            self
        } else {
            self.with_messages(messages.drop_last()).with_message(messages.last())
        }
    }
}

/// What a foreground turn leads to.
#[verifier::ext_equal]
pub struct TurnView {
    pub plane: PlaneView,
    pub store: StoreView,
    /// The answers for the terminals' processes.
    pub writes: Seq<(TerminalId, Seq<u8>)>,
    /// The terminals that are to be attached anew.
    pub resync: Seq<TerminalId>,
    /// The terminals that are to be drawn anew.
    pub changed: Set<u64>,
}

impl TurnView {
    pub open spec fn gathered(self, messages: Seq<TerminalEventMsg>) -> GatherView {
        GatherView {
            store: self.store,
            latest: None,
            attached: false,
            detached: false,
            writes: self.writes,
            resync: self.resync,
        }.with_messages(messages)
    }

    /// After the messages of one terminal: the latest snapshot is kept, and a
    /// terminal whose pump ended is dropped.
    pub open spec fn with_terminal(self, id: TerminalId, messages: Seq<TerminalEventMsg>) -> TurnView {
        let gathered = self.gathered(messages);
        let drawn = PlaneView {
            pending: if gathered.attached {
                self.plane.pending.remove(id.value)
            } else {
                self.plane.pending
            },
            snapshots: match gathered.latest {
                Some(snapshot) => self.plane.snapshots.insert(id.value, snapshot),
                None => self.plane.snapshots,
            },
            ..self.plane
        };
        TurnView {
            plane: if gathered.detached {
                drawn.ended(id)
            } else {
                drawn
            },
            store: if gathered.detached {
                gathered.store.removed(id)
            } else {
                gathered.store
            },
            writes: gathered.writes,
            resync: gathered.resync,
            changed: if gathered.detached || gathered.latest is Some {
                self.changed.insert(id.value)
            } else {
                self.changed
            },
        }
    }

    /// After the messages of several terminals.
    pub open spec fn with_terminals(self, groups: Seq<(u64, Seq<TerminalEventMsg>)>) -> TurnView
        decreases groups.len(),
    {
        if groups.len() == 0 {
            self
        } else {
            self.with_terminals(groups.drop_last()).with_terminal(
                TerminalId { value: groups.last().0 },
                groups.last().1,
            )
        }
    }
}

/// A message that counts: it is of the terminal, and its attachment is wanted.
pub open spec fn counts(id: u64) -> spec_fn(TerminalEventMsg) -> bool {
    |message: TerminalEventMsg| message.attachment.active && message.terminal_id.value == id
}

/// Some message of the batch counts for the terminal.
pub open spec fn named(batch: Seq<TerminalEventMsg>, id: u64) -> bool {
    exists|i: int| 0 <= i < batch.len() && counts(id)(#[trigger] batch[i])
}

/// The messages that count, by terminal.
pub open spec fn by_terminal(batch: Seq<TerminalEventMsg>) -> Map<u64, Seq<TerminalEventMsg>> {
    Map::new(|id: u64| named(batch, id), |id: u64| batch.filter(counts(id)))
}

/// What a batch leads to: the terminals are taken in the order of their ids,
/// and the messages of each in the order in which they came.
pub open spec fn turn(
    plane: PlaneView,
    store: StoreView,
    batch: Seq<TerminalEventMsg>,
) -> TurnView {
    TurnView {
        plane,
        store,
        writes: Seq::empty(),
        resync: Seq::empty(),
        changed: Set::empty(),
    }.with_terminals(in_order(by_terminal(batch)))
}

/// What a foreground turn asks of the windows.
#[derive(Debug)]
pub struct TerminalTurn {
    pub writes: Vec<(TerminalId, Vec<u8>)>,
    pub resync: Vec<TerminalId>,
    pub changed: Vec<TerminalId>,
}

/// The answers as byte strings.
pub open spec fn answers(writes: Seq<(TerminalId, Vec<u8>)>) -> Seq<(TerminalId, Seq<u8>)> {
    writes.map_values(|write: (TerminalId, Vec<u8>)| (write.0, write.1@))
}

/// The terminals are those of the set, in the order of their ids.
pub open spec fn lists_in_order(ids: Seq<TerminalId>, set: Set<u64>) -> bool {
    &&& forall|i: int, j: int|
        0 <= i < j < ids.len() ==> (#[trigger] ids[i]).value < (#[trigger] ids[j]).value
    &&& forall|id: u64| #[trigger] set.contains(id) <==> ids.contains(TerminalId { value: id })
}

/// One connection's terminal plane.
#[derive(Debug)]
pub struct TerminalConnection {
    pending_attachments: IdMap<()>,
    attachments: IdMap<u64>,
    emulator_commands: IdMap<()>,
    cell_sizes: IdMap<(u16, u16)>,
    desired_scrollback: IdMap<(usize, bool)>,
    snapshots: IdMap<Arc<TerminalSnapshot>>,
    next_attachment: u64,
    scrollback_lines: usize,
    inactive_scrollback_lines: usize,
    max_total_scrollback_bytes: usize,
    theme: TerminalTheme,
}

impl View for TerminalConnection {
    type V = PlaneView;

    closed spec fn view(&self) -> PlaneView {
        PlaneView {
            pending: self.pending_attachments@.dom(),
            attachments: self.attachments@,
            commands: self.emulator_commands@.dom(),
            cell_sizes: self.cell_sizes@,
            desired: self.desired_scrollback@,
            snapshots: self.snapshots@,
            next_attachment: self.next_attachment,
            scrollback_lines: self.scrollback_lines,
            inactive_scrollback_lines: self.inactive_scrollback_lines,
            max_total_scrollback_bytes: self.max_total_scrollback_bytes,
            theme: self.theme,
        }
    }
}

/// What the messages of one terminal have added up to so far.
struct Gathered {
    latest: Option<Arc<TerminalSnapshot>>,
    attached: bool,
    detached: bool,
    writes: Vec<(TerminalId, Vec<u8>)>,
    resync: Vec<TerminalId>,
}

impl Gathered {
    spec fn with_store(&self, store: StoreView) -> GatherView {
        GatherView {
            store,
            latest: self.latest,
            attached: self.attached,
            detached: self.detached,
            writes: answers(self.writes@),
            resync: self.resync@,
        }
    }

    fn take(&mut self, store: &mut TerminalSnapshotStore, message: TerminalEventMsg)
        ensures
            final(self).with_store(final(store)@) == old(self).with_store(old(store)@).with_message(
                message,
            ),
    {
        let terminal_id: TerminalId = message.terminal_id;
        let attachment: TerminalAttachmentState = message.attachment;
        match message.kind {
            TerminalEventKind::Attached { snapshot } => {
                self.attached = true;
                merge_terminal_snapshot(&mut self.latest, snapshot, true);
            },
            TerminalEventKind::SnapshotReady => {
                if let Some(snapshot) = store.take_snapshot(terminal_id, attachment.id) {
                    merge_terminal_snapshot(&mut self.latest, snapshot, false);
                }
            },
            TerminalEventKind::PtyWrites { writes } => {
                let mut writes: Vec<Vec<u8>> = writes;
                let ghost all = writes@;
                let ghost before = answers(self.writes@);
                let ghost kept = *self;
                let ghost mut taken: int = 0;
                assert(before + addressed(terminal_id, all.take(0)) =~= before);
                while writes.len() > 0
                    invariant
                        0 <= taken <= all.len(),
                        writes@ == all.skip(taken),
                        answers(self.writes@) == before + addressed(terminal_id, all.take(taken)),
                        *self == (Gathered { writes: self.writes, ..kept }),
                    decreases writes@.len(),
                {
                    let ghost so_far = self.writes@;
                    let bytes: Vec<u8> = writes.remove(0);
                    self.writes.push((terminal_id, bytes));
                    proof {
                        assert(answers(self.writes@) =~= answers(so_far).push((terminal_id, bytes@)));
                        assert(addressed(terminal_id, all.take(taken + 1)) =~= addressed(
                            terminal_id,
                            all.take(taken),
                        ).push((terminal_id, bytes@)));
                        assert(answers(self.writes@) =~= before + addressed(
                            terminal_id,
                            all.take(taken + 1),
                        ));
                        assert(writes@ =~= all.skip(taken + 1));
                        taken = taken + 1;
                    }
                }
                assert(all.take(taken) =~= all);
            },
            TerminalEventKind::Restart => {
                self.resync.push(terminal_id);
            },
            TerminalEventKind::Detached => {
                self.detached = true;
            },
        }
    }
}

proof fn lemma_filter_push(batch: Seq<TerminalEventMsg>, end: int, id: u64)
    requires
        0 <= end < batch.len(),
    ensures
        batch.take(end + 1).filter(counts(id)) == if counts(id)(batch[end]) {
            batch.take(end).filter(counts(id)).push(batch[end])
        } else {
            batch.take(end).filter(counts(id))
        },
        named(batch.take(end + 1), id) == (named(batch.take(end), id) || counts(id)(batch[end])),
{
    let longer = batch.take(end + 1);
    let shorter = batch.take(end);
    assert(longer.drop_last() =~= shorter);
    assert(longer.last() == batch[end]);
    reveal(Seq::filter);
    if named(longer, id) && !counts(id)(batch[end]) {
        let i = choose|i: int| 0 <= i < longer.len() && counts(id)(#[trigger] longer[i]);
        assert(shorter[i] == longer[i]);
    }
    if named(shorter, id) {
        let i = choose|i: int| 0 <= i < shorter.len() && counts(id)(#[trigger] shorter[i]);
        assert(longer[i] == shorter[i]);
    }
    if counts(id)(batch[end]) {
        assert(counts(id)(longer[end]));
    }
}

spec fn vectors_as_seqs(vectors: Map<u64, Vec<TerminalEventMsg>>) -> Map<u64, Seq<TerminalEventMsg>> {
    vectors.map_values(|messages: Vec<TerminalEventMsg>| messages@)
}

/// The messages that count, grouped by terminal, in the order of the ids.
fn group_by_terminal(batch: Vec<TerminalEventMsg>) -> (groups: Vec<(u64, Vec<TerminalEventMsg>)>)
    ensures
        groups@.len() == in_order(by_terminal(batch@)).len(),
        forall|i: int|
            0 <= i < groups@.len() ==> (#[trigger] groups@[i]).0 == in_order(
                by_terminal(batch@),
            )[i].0 && groups@[i].1@ == in_order(by_terminal(batch@))[i].1,
{
    let ghost all = batch@;
    let mut batch: Vec<TerminalEventMsg> = batch;
    let mut grouped: IdMap<Vec<TerminalEventMsg>> = IdMap::new();
    let ghost mut taken: int = 0;
    assert(vectors_as_seqs(grouped@) =~= by_terminal(all.take(0)));
    assert(all.skip(0) =~= all);
    while batch.len() > 0
        invariant
            0 <= taken <= all.len(),
            batch@ == all.skip(taken),
            vectors_as_seqs(grouped@) == by_terminal(all.take(taken)),
        decreases batch@.len(),
    {
        let ghost before = grouped@;
        let message: TerminalEventMsg = batch.remove(0);
        let ghost taken_message = message;
        assert(message == all[taken]);
        assert(batch@ =~= all.skip(taken + 1));
        if message.is_active() {
            let id: u64 = message.terminal_id().value;
            let mut messages: Vec<TerminalEventMsg> = match grouped.remove(id) {
                Some(messages) => messages,
                None => Vec::new(),
            };
            let ghost earlier = messages@;
            messages.push(message);
            let ghost later = messages@;
            let _ = grouped.insert(id, messages);
            proof {
                assert(vectors_as_seqs(grouped@) =~= vectors_as_seqs(before).insert(id, later));
                lemma_filter_push(all, taken, id);
                if !named(all.take(taken), id) {
                    assert(!vectors_as_seqs(before).contains_key(id));
                    lemma_nothing_counts(all.take(taken), id);
                } else {
                    assert(vectors_as_seqs(before).contains_key(id));
                    assert(vectors_as_seqs(before)[id] == earlier);
                }
                assert(later =~= all.take(taken + 1).filter(counts(id)));
                assert forall|k: u64| k != id implies !counts(k)(all[taken]) by {}
            }
        }
        proof {
            let map = by_terminal(all.take(taken + 1));
            let left = vectors_as_seqs(grouped@);
            assert forall|k: u64| #[trigger] left.dom().contains(k) == map.dom().contains(k) by {
                lemma_filter_push(all, taken, k);
                assert(by_terminal(all.take(taken)).contains_key(k) == named(all.take(taken), k));
            }
            assert forall|k: u64| #[trigger] left.dom().contains(k) implies left[k] == map[k] by {
                lemma_filter_push(all, taken, k);
                assert(by_terminal(all.take(taken)).contains_key(k) == named(all.take(taken), k));
            }
            assert(left.dom() =~= map.dom());
            assert(left =~= map);
            taken = taken + 1;
        }
    }
    assert(all.take(taken) =~= all);
    let ghost entries = grouped.entries();
    let groups: Vec<(u64, Vec<TerminalEventMsg>)> = grouped.into_entries();
    proof {
        let f = |messages: Vec<TerminalEventMsg>| messages@;
        let seqs = Seq::new(entries.len(), |i: int| (entries[i].0, entries[i].1@));
        lemma_map_values(entries, f, seqs);
        lemma_in_order(seqs);
        assert(map_of(entries).map_values(f) =~= by_terminal(all));
    }
    groups
}

proof fn lemma_nothing_counts(batch: Seq<TerminalEventMsg>, id: u64)
    requires
        !named(batch, id),
    ensures
        batch.filter(counts(id)).len() == 0,
    decreases batch.len(),
{
    reveal(Seq::filter);
    if batch.len() > 0 {
        let rest = batch.drop_last();
        if named(rest, id) {
            let i = choose|i: int| 0 <= i < rest.len() && counts(id)(#[trigger] rest[i]);
            assert(batch[i] == rest[i]);
        }
        lemma_nothing_counts(rest, id);
        assert(!counts(id)(batch[batch.len() - 1]));
    }
}

/// The ids of a map, in their order.
fn listed_ids(ids: IdMap<()>) -> (listed: Vec<TerminalId>)
    ensures
        lists_in_order(listed@, ids@.dom()),
{
    let ghost entries = ids.entries();
    let mut listed: Vec<TerminalId> = Vec::new();
    let mut at: usize = 0;
    let walked: Vec<u64> = ids.ids();
    let count: usize = walked.len();
    while at < count
        invariant
            at <= count == entries.len() == walked@.len(),
            forall|i: int| 0 <= i < count ==> (#[trigger] walked@[i]) == entries[i].0,
            listed@.len() == at,
            forall|i: int| 0 <= i < at ==> (#[trigger] listed@[i]).value == entries[i].0,
        decreases count - at,
    {
        listed.push(TerminalId { value: walked[at] });
        at = at + 1;
    }
    proof {
        assert forall|i: int, j: int| 0 <= i < j < listed@.len() implies (#[trigger] listed@[i]).value
            < (#[trigger] listed@[j]).value by {
            assert(entries[i].0 < entries[j].0);
        }
        assert forall|id: u64| #[trigger] ids@.dom().contains(id) <==> listed@.contains(
            TerminalId { value: id },
        ) by {
            if has_id(entries, id) {
                let i = choose|i: int| 0 <= i < entries.len() && (#[trigger] entries[i]).0 == id;
                assert(listed@[i] == TerminalId { value: id });
            }
            if listed@.contains(TerminalId { value: id }) {
                let i = choose|i: int| 0 <= i < listed@.len() && listed@[i] == TerminalId { value: id };
                assert(entries[i].0 == id);
            }
        }
    }
    listed
}

impl TerminalConnection {
    pub fn new(
        scrollback_lines: usize,
        inactive_scrollback_lines: usize,
        max_total_scrollback_bytes: usize,
        theme: TerminalTheme,
    ) -> (plane: Self)
        ensures
            plane@ == PlaneView::empty(
                scrollback_lines,
                inactive_scrollback_lines,
                max_total_scrollback_bytes,
                theme,
            ),
    {
        let plane = Self {
            pending_attachments: IdMap::new(),
            attachments: IdMap::new(),
            emulator_commands: IdMap::new(),
            cell_sizes: IdMap::new(),
            desired_scrollback: IdMap::new(),
            snapshots: IdMap::new(),
            next_attachment: 0,
            scrollback_lines,
            inactive_scrollback_lines,
            max_total_scrollback_bytes,
            theme,
        };
        assert(plane@ =~= PlaneView::empty(
            scrollback_lines,
            inactive_scrollback_lines,
            max_total_scrollback_bytes,
            theme,
        ));
        plane
    }

    /// Takes the messages of one terminal.
    fn apply_terminal(
        &mut self,
        store: &mut TerminalSnapshotStore,
        terminal_id: TerminalId,
        messages: Vec<TerminalEventMsg>,
        turn: &mut TerminalTurn,
        changed: &mut IdMap<()>,
    )
        ensures
            ({
                let next = TurnView {
                    plane: old(self)@,
                    store: old(store)@,
                    writes: answers(old(turn).writes@),
                    resync: old(turn).resync@,
                    changed: old(changed)@.dom(),
                }.with_terminal(terminal_id, messages@);
                &&& final(self)@ == next.plane
                &&& final(store)@ == next.store
                &&& answers(final(turn).writes@) == next.writes
                &&& final(turn).resync@ == next.resync
                &&& final(changed)@.dom() == next.changed
            }),
    {
        let ghost all = messages@;
        let ghost begun = TurnView {
            plane: self@,
            store: store@,
            writes: answers(turn.writes@),
            resync: turn.resync@,
            changed: changed@.dom(),
        };
        let mut messages: Vec<TerminalEventMsg> = messages;
        let mut gathered: Gathered = Gathered {
            latest: None,
            attached: false,
            detached: false,
            writes: Vec::new(),
            resync: Vec::new(),
        };
        std::mem::swap(&mut gathered.writes, &mut turn.writes);
        std::mem::swap(&mut gathered.resync, &mut turn.resync);
        let ghost mut taken: int = 0;
        assert(all.skip(0) =~= all);
        assert(gathered.with_store(store@) =~= begun.gathered(all.take(0)));
        while messages.len() > 0
            invariant
                0 <= taken <= all.len(),
                messages@ == all.skip(taken),
                gathered.with_store(store@) == begun.gathered(all.take(taken)),
            decreases messages@.len(),
        {
            let message: TerminalEventMsg = messages.remove(0);
            proof {
                assert(message == all[taken]);
                assert(messages@ =~= all.skip(taken + 1));
                assert(all.take(taken + 1).drop_last() =~= all.take(taken));
                taken = taken + 1;
            }
            gathered.take(store, message);
        }
        assert(all.take(taken) =~= all);
        if gathered.attached {
            let _ = self.pending_attachments.remove(terminal_id.value);
        }
        if let Some(snapshot) = gathered.latest {
            let _ = self.snapshots.insert(terminal_id.value, snapshot);
            let _ = changed.insert(terminal_id.value, ());
        }
        if gathered.detached {
            store.remove(terminal_id);
            let _ = self.pending_attachments.remove(terminal_id.value);
            let _ = self.attachments.remove(terminal_id.value);
            let _ = self.emulator_commands.remove(terminal_id.value);
            let _ = self.cell_sizes.remove(terminal_id.value);
            let _ = self.snapshots.remove(terminal_id.value);
            let _ = changed.insert(terminal_id.value, ());
        }
        turn.writes = gathered.writes;
        turn.resync = gathered.resync;
        proof {
            let next = begun.with_terminal(terminal_id, all);
            assert(self@ =~= next.plane);
            assert(changed@.dom() =~= next.changed);
        }
    }

    /// Installs a batch of worker-produced snapshots; returns the answers to
    /// forward, the terminals to attach anew and the terminals to draw anew.
    pub fn apply_terminal_events(
        &mut self,
        store: &mut TerminalSnapshotStore,
        batch: Vec<TerminalEventMsg>,
    ) -> (applied: TerminalTurn)
        ensures
            ({
                let expected = turn(old(self)@, old(store)@, batch@);
                &&& final(self)@ == expected.plane
                &&& final(store)@ == expected.store
                &&& answers(applied.writes@) == expected.writes
                &&& applied.resync@ == expected.resync
                &&& lists_in_order(applied.changed@, expected.changed)
            }),
    {
        let ghost groups_view = in_order(by_terminal(batch@));
        let ghost begun = TurnView {
            plane: self@,
            store: store@,
            writes: Seq::empty(),
            resync: Seq::empty(),
            changed: Set::empty(),
        };
        let mut groups: Vec<(u64, Vec<TerminalEventMsg>)> = group_by_terminal(batch);
        let ghost all = groups@;
        let mut applied: TerminalTurn = TerminalTurn {
            writes: Vec::new(),
            resync: Vec::new(),
            changed: Vec::new(),
        };
        let mut changed: IdMap<()> = IdMap::new();
        let ghost mut taken: int = 0;
        proof {
            assert(all.skip(0) =~= all);
            assert(changed@.dom() =~= Set::empty());
            assert(answers(applied.writes@) =~= Seq::empty());
            assert(groups_view.take(0) =~= Seq::empty());
        }
        while groups.len() > 0
            invariant
                0 <= taken <= all.len(),
                all.len() == groups_view.len(),
                forall|i: int|
                    0 <= i < all.len() ==> (#[trigger] all[i]).0 == groups_view[i].0
                        && all[i].1@ == groups_view[i].1,
                groups@ == all.skip(taken),
                ({
                    let so_far = begun.with_terminals(groups_view.take(taken));
                    &&& self@ == so_far.plane
                    &&& store@ == so_far.store
                    &&& answers(applied.writes@) == so_far.writes
                    &&& applied.resync@ == so_far.resync
                    &&& changed@.dom() == so_far.changed
                }),
            decreases groups@.len(),
        {
            let (id, messages) = groups.remove(0);
            proof {
                assert((id, messages) == all[taken]);
                assert(groups@ =~= all.skip(taken + 1));
                assert(groups_view.take(taken + 1).drop_last() =~= groups_view.take(taken));
                assert(groups_view.take(taken + 1).last() == groups_view[taken]);
                taken = taken + 1;
            }
            self.apply_terminal(
                store,
                TerminalId { value: id },
                messages,
                &mut applied,
                &mut changed,
            );
        }
        assert(groups_view.take(taken) =~= groups_view);
        applied.changed = listed_ids(changed);
        applied
    }

    /// Begins the attachment of a terminal, unless the model does not show it
    /// or it is attached or about to be.
    pub fn begin_attach(&mut self, model: &ModelSnapshot, terminal_id: TerminalId) -> (plan: Option<
        AttachPlan,
    >)
        requires
            rows_countable(*model),
        ensures
            if old(self)@.attachable(*model, terminal_id) {
                &&& plan == Some(old(self)@.plan(*model, terminal_id))
                &&& final(self)@ == old(self)@.attaching(*model, terminal_id)
            } else {
                plan is None && final(self)@ == old(self)@
            },
    {
        if terminal_size_in_snapshot(model, terminal_id).is_none() {
            return None;
        }
        if self.emulator_commands.contains(terminal_id.value) || self.pending_attachments.contains(
            terminal_id.value,
        ) {
            return None;
        }
        let scrollback_protected: bool = terminal_scrollback_protected(model, terminal_id);
        let scrollback_lines: usize = terminal_scrollback_lines(
            model,
            terminal_id,
            self.scrollback_lines,
            self.inactive_scrollback_lines,
            self.max_total_scrollback_bytes,
        );
        let attachment: u64 = self.next_attachment;
        self.next_attachment = if attachment == u64::MAX {
            0
        } else {
            attachment + 1
        };
        let _ = self.pending_attachments.insert(terminal_id.value, ());
        let _ = self.desired_scrollback.insert(
            terminal_id.value,
            (scrollback_lines, scrollback_protected),
        );
        let _ = self.attachments.insert(terminal_id.value, attachment);
        let _ = self.emulator_commands.insert(terminal_id.value, ());
        assert(self@ =~= old(self)@.attaching(*model, terminal_id));
        Some(AttachPlan { attachment, scrollback_lines, scrollback_protected, theme: self.theme })
    }

    /// Gives up the attachment of a terminal, because its thread could not be
    /// started or its stream has skipped; returns the attachment to cancel.
    pub fn release(&mut self, store: &mut TerminalSnapshotStore, terminal_id: TerminalId) -> (
    attachment: Option<u64>)
        ensures
            final(self)@ == old(self)@.released(terminal_id),
            final(store)@ == old(store)@.removed(terminal_id),
            attachment == old(self)@.attachments.get(terminal_id.value),
    {
        let attachment: Option<u64> = self.attachments.remove(terminal_id.value);
        store.remove(terminal_id);
        let _ = self.pending_attachments.remove(terminal_id.value);
        let _ = self.emulator_commands.remove(terminal_id.value);
        let _ = self.cell_sizes.remove(terminal_id.value);
        let _ = self.desired_scrollback.remove(terminal_id.value);
        assert(self@ =~= old(self)@.released(terminal_id));
        attachment
    }

    /// Replaces the attachment of a terminal; returns the attachment to cancel
    /// and what the new one starts from, if the model still shows the terminal.
    pub fn restart_terminal_attachment(
        &mut self,
        store: &mut TerminalSnapshotStore,
        model: &ModelSnapshot,
        terminal_id: TerminalId,
    ) -> (restarted: (Option<u64>, Option<AttachPlan>))
        requires
            rows_countable(*model),
        ensures
            restarted.0 == old(self)@.attachments.get(terminal_id.value),
            final(store)@ == old(store)@.removed(terminal_id),
            ({
                let released = old(self)@.released(terminal_id);
                if first_size(all_terminals(model.workspaces@), terminal_id) is Some {
                    &&& restarted.1 == Some(released.plan(*model, terminal_id))
                    &&& final(self)@ == released.attaching(*model, terminal_id)
                } else {
                    restarted.1 is None && final(self)@ == released
                }
            }),
    {
        let attachment: Option<u64> = self.release(store, terminal_id);
        let plan: Option<AttachPlan> = self.begin_attach(model, terminal_id);
        (attachment, plan)
    }

    /// Drops a terminal that left the model (closed tab, pane or window).
    /// Returns whether it was attached or about to be, and the attachment to
    /// cancel before its command channel is dropped.
    pub fn detach_terminal(
        &mut self,
        store: &mut TerminalSnapshotStore,
        terminal_id: TerminalId,
    ) -> (detached: (bool, Option<u64>))
        ensures
            detached.1 == old(self)@.attachments.get(terminal_id.value),
            detached.0 == (old(self)@.attachments.contains_key(terminal_id.value)
                || old(self)@.pending.contains(terminal_id.value)),
            if detached.0 {
                &&& final(self)@ == old(self)@.forgotten(terminal_id)
                &&& final(store)@ == old(store)@.removed(terminal_id)
            } else {
                final(self)@ == old(self)@ && final(store)@ == old(store)@
            },
    {
        if !self.attachments.contains(terminal_id.value) && !self.pending_attachments.contains(
            terminal_id.value,
        ) {
            return (false, None);
        }
        let attachment: Option<u64> = self.release(store, terminal_id);
        let _ = self.snapshots.remove(terminal_id.value);
        assert(self@ =~= old(self)@.forgotten(terminal_id));
        (true, attachment)
    }

    /// The newest immutable snapshot published by the emulator worker.
    pub fn terminal_snapshot(&self, terminal_id: TerminalId) -> (snapshot: Option<
        &Arc<TerminalSnapshot>,
    >)
        ensures
            match snapshot {
                Some(snapshot) => self@.snapshots.contains_key(terminal_id.value) && *snapshot
                    == self@.snapshots[terminal_id.value],
                None => !self@.snapshots.contains_key(terminal_id.value),
            },
    {
        self.snapshots.get(terminal_id.value)
    }

    /// The command that tells an emulator the physical size of a cell, if its
    /// emulator takes commands and was not told that size before.
    pub fn terminal_set_cell_size(
        &self,
        terminal_id: TerminalId,
        cell_width: u16,
        cell_height: u16,
    ) -> (step: CellSizeStep)
        ensures
            step == if self@.cell_sizes.get(terminal_id.value) == Some((cell_width, cell_height)) {
                CellSizeStep::Known
            } else if self@.commands.contains(terminal_id.value) {
                CellSizeStep::Send(TerminalEmulatorCommand::SetCellSize { cell_width, cell_height })
            } else {
                CellSizeStep::NoEmulator
            },
    {
        if let Some(known) = self.cell_sizes.get(terminal_id.value) {
            if known.0 == cell_width && known.1 == cell_height {
                return CellSizeStep::Known;
            }
        }
        if self.emulator_commands.contains(terminal_id.value) {
            CellSizeStep::Send(TerminalEmulatorCommand::SetCellSize { cell_width, cell_height })
        } else {
            CellSizeStep::NoEmulator
        }
    }

    /// Notes that an emulator was told the size of a cell.
    pub fn cell_size_sent(&mut self, terminal_id: TerminalId, cell_width: u16, cell_height: u16)
        ensures
            final(self)@ == (PlaneView {
                cell_sizes: old(self)@.cell_sizes.insert(
                    terminal_id.value,
                    (cell_width, cell_height),
                ),
                ..old(self)@
            }),
    {
        let _ = self.cell_sizes.insert(terminal_id.value, (cell_width, cell_height));
    }

    /// The command that scrolls a terminal, if its emulator takes commands.
    pub fn terminal_scroll_by(&self, terminal_id: TerminalId, delta: i64) -> (command: Option<
        TerminalEmulatorCommand,
    >)
        ensures
            command == if self@.commands.contains(terminal_id.value) {
                Some(TerminalEmulatorCommand::ScrollBy(delta))
            } else {
                None
            },
    {
        if self.emulator_commands.contains(terminal_id.value) {
            Some(TerminalEmulatorCommand::ScrollBy(delta))
        } else {
            None
        }
    }

    /// The command that scrolls a terminal to a position, if its emulator takes
    /// commands.
    pub fn terminal_scroll_to(&self, terminal_id: TerminalId, target: i64) -> (command: Option<
        TerminalEmulatorCommand,
    >)
        ensures
            command == if self@.commands.contains(terminal_id.value) {
                Some(TerminalEmulatorCommand::ScrollTo(target))
            } else {
                None
            },
    {
        if self.emulator_commands.contains(terminal_id.value) {
            Some(TerminalEmulatorCommand::ScrollTo(target))
        } else {
            None
        }
    }

    /// The command that pins or releases a terminal's viewport, if its emulator
    /// takes commands.
    pub fn terminal_set_viewport_pinned(&self, terminal_id: TerminalId, pinned: bool) -> (command:
        Option<TerminalEmulatorCommand>)
        ensures
            command == if self@.commands.contains(terminal_id.value) {
                Some(TerminalEmulatorCommand::SetPinned(pinned))
            } else {
                None
            },
    {
        if self.emulator_commands.contains(terminal_id.value) {
            Some(TerminalEmulatorCommand::SetPinned(pinned))
        } else {
            None
        }
    }
}

/// How a cell size is passed on.
#[derive(Debug, Clone, Copy, PartialEq, Eq, Structural)]
pub enum CellSizeStep {
    /// The emulator was told before.
    Known,
    /// No emulator takes commands.
    NoEmulator,
    Send(TerminalEmulatorCommand),
}

impl TerminalConnection {
    /// What the emulators are to be told of their history, now that the model
    /// has changed: the terminals in the order of their ids.
    pub fn sync_terminal_scrollback_protection(&self, model: &ModelSnapshot) -> (updates: Vec<
        ScrollbackUpdate,
    >)
        requires
            rows_countable(*model),
        ensures
            forall|i: int, j: int|
                0 <= i < j < updates@.len() ==> (#[trigger] updates@[i]).terminal_id.value < (
                #[trigger] updates@[j]).terminal_id.value,
            forall|i: int|
                0 <= i < updates@.len() ==> {
                    let id = (#[trigger] updates@[i]).terminal_id.value;
                    updates@[i] == self@.update_for(*model, id) && self@.is_stale(*model, id)
                },
            forall|id: u64|
                #![trigger self@.is_stale(*model, id)]
                self@.is_stale(*model, id) ==> updates@.contains(self@.update_for(*model, id)),
    {
        let mut updates: Vec<ScrollbackUpdate> = Vec::new();
        let ghost entries = self.emulator_commands.entries();
        let walked: Vec<u64> = self.emulator_commands.ids();
        let count: usize = walked.len();
        let mut at: usize = 0;
        while at < count
            invariant
                rows_countable(*model),
                at <= count == entries.len() == walked@.len(),
                forall|i: int| 0 <= i < count ==> (#[trigger] walked@[i]) == entries[i].0,
                map_of(entries) == self.emulator_commands@,
                ordered(entries),
                forall|i: int, j: int|
                    0 <= i < j < updates@.len() ==> (#[trigger] updates@[i]).terminal_id.value < (
                    #[trigger] updates@[j]).terminal_id.value,
                forall|i: int|
                    0 <= i < updates@.len() ==> {
                        let id = (#[trigger] updates@[i]).terminal_id.value;
                        &&& updates@[i] == self@.update_for(*model, id)
                        &&& self@.is_stale(*model, id)
                        &&& at < count ==> id < entries[at as int].0
                    },
                forall|k: int|
                    #![trigger entries[k]]
                    0 <= k < at && self@.is_stale(*model, entries[k].0) ==> updates@.contains(
                        self@.update_for(*model, entries[k].0),
                    ),
            decreases count - at,
        {
            let terminal_id: TerminalId = TerminalId { value: walked[at] };
            proof {
                lemma_entry(entries, at as int);
                assert(at + 1 < count ==> entries[at as int].0 < entries[at + 1].0);
            }
            let lines: usize = terminal_scrollback_lines(
                model,
                terminal_id,
                self.scrollback_lines,
                self.inactive_scrollback_lines,
                self.max_total_scrollback_bytes,
            );
            let protected: bool = terminal_scrollback_protected(model, terminal_id);
            let current: bool = match self.desired_scrollback.get(terminal_id.value) {
                Some(told) => told.0 == lines && told.1 == protected,
                None => false,
            };
            let ghost before = updates@;
            if !current {
                updates.push(ScrollbackUpdate { terminal_id, lines, protected });
                proof {
                    let update = self@.update_for(*model, terminal_id.value);
                    assert(updates@[updates@.len() - 1] == update);
                    assert forall|k: int|
                        #![trigger entries[k]]
                        0 <= k < at && self@.is_stale(*model, entries[k].0) implies updates@.contains(
                        self@.update_for(*model, entries[k].0),
                    ) by {
                        let earlier = self@.update_for(*model, entries[k].0);
                        let i = choose|i: int| 0 <= i < before.len() && before[i] == earlier;
                        assert(before.contains(earlier));
                        assert(updates@[i] == earlier);
                    }
                }
            }
            at = at + 1;
        }
        assert forall|id: u64|
            #![trigger self@.is_stale(*model, id)]
            self@.is_stale(*model, id) implies updates@.contains(self@.update_for(*model, id)) by {
            assert(has_id(entries, id));
            let k = choose|k: int| 0 <= k < entries.len() && (#[trigger] entries[k]).0 == id;
            assert(entries[k].0 == id);
        }
        updates
    }

    /// Notes that an emulator was told of its history.
    pub fn scrollback_sent(&mut self, update: ScrollbackUpdate)
        ensures
            final(self)@ == (PlaneView {
                desired: old(self)@.desired.insert(
                    update.terminal_id.value,
                    (update.lines, update.protected),
                ),
                ..old(self)@
            }),
    {
        let _ = self.desired_scrollback.insert(
            update.terminal_id.value,
            (update.lines, update.protected),
        );
    }
}

/// Once an emulator was told of its history, it is not told again while the
/// model stays as it is.
pub proof fn an_emulator_is_told_once(plane: PlaneView, model: ModelSnapshot, id: u64)
    ensures
        ({
            let update = plane.update_for(model, id);
            !(PlaneView {
                desired: plane.desired.insert(id, (update.lines, update.protected)),
                ..plane
            }).is_stale(model, id)
        }),
{
}

/// A terminal that is attached or about to be is not attached a second time.
pub proof fn a_terminal_is_attached_once(plane: PlaneView, model: ModelSnapshot, id: TerminalId)
    ensures
        !plane.attaching(model, id).attachable(model, id),
        first_size(all_terminals(model.workspaces@), id) is Some ==> plane.attaching(
            model,
            id,
        ).released(id).attachable(model, id),
{
}

proof fn lemma_gathering(gather: GatherView, messages: Seq<TerminalEventMsg>, id: u64, other: u64)
    requires
        forall|i: int| 0 <= i < messages.len() ==> (#[trigger] messages[i]).terminal_id.value == id,
        id != other,
    ensures
        gather.with_messages(messages).store.pending.contains_key(other)
            == gather.store.pending.contains_key(other),
        gather.with_messages(messages).store.pending[other] == gather.store.pending[other],
        gather.with_messages(messages).store.notified.contains(other)
            == gather.store.notified.contains(other),
    decreases messages.len(),
{
    if messages.len() > 0 {
        lemma_gathering(gather, messages.drop_last(), id, other);
    }
}

proof fn lemma_groups_leave_others(
    begun: TurnView,
    groups: Seq<(u64, Seq<TerminalEventMsg>)>,
    id: u64,
)
    requires
        forall|k: int| 0 <= k < groups.len() ==> (#[trigger] groups[k]).0 != id,
        forall|k: int, i: int|
            0 <= k < groups.len() && 0 <= i < groups[k].1.len() ==> (
            #[trigger] groups[k].1[i]).terminal_id.value == groups[k].0,
    ensures
        begun.with_terminals(groups).plane.agrees(begun.plane, id),
        begun.with_terminals(groups).changed.contains(id) == begun.changed.contains(id),
        begun.with_terminals(groups).store.pending.contains_key(id)
            == begun.store.pending.contains_key(id),
        begun.with_terminals(groups).store.pending[id] == begun.store.pending[id],
        begun.with_terminals(groups).store.notified.contains(id) == begun.store.notified.contains(
            id,
        ),
    decreases groups.len(),
{
    if groups.len() > 0 {
        let last = groups.last();
        let before = begun.with_terminals(groups.drop_last());
        assert forall|k: int, i: int|
            0 <= k < groups.drop_last().len() && 0 <= i < groups.drop_last()[k].1.len() implies (
        #[trigger] groups.drop_last()[k].1[i]).terminal_id.value == groups.drop_last()[k].0 by {
            assert(groups[k].1[i].terminal_id.value == groups[k].0);
        }
        lemma_groups_leave_others(begun, groups.drop_last(), id);
        assert(groups[groups.len() - 1].0 != id);
        assert forall|i: int| 0 <= i < last.1.len() implies (
        #[trigger] last.1[i]).terminal_id.value == last.0 by {
            assert(groups[groups.len() - 1].1[i].terminal_id.value == last.0);
        }
        lemma_gathering(
            GatherView {
                store: before.store,
                latest: None,
                attached: false,
                detached: false,
                writes: before.writes,
                resync: before.resync,
            },
            last.1,
            last.0,
            id,
        );
    }
}

proof fn lemma_counting(batch: Seq<TerminalEventMsg>, id: u64)
    ensures
        forall|i: int|
            0 <= i < batch.filter(counts(id)).len() ==> counts(id)(
                #[trigger] batch.filter(counts(id))[i],
            ),
    decreases batch.len(),
{
    reveal(Seq::filter);
    if batch.len() > 0 {
        lemma_counting(batch.drop_last(), id);
    }
}

proof fn lemma_groups(batch: Seq<TerminalEventMsg>)
    ensures
        ({
            let groups = in_order(by_terminal(batch));
            &&& ordered(groups)
            &&& map_of(groups) == by_terminal(batch)
            &&& forall|k: int|
                0 <= k < groups.len() ==> named(batch, (#[trigger] groups[k]).0) && groups[k].1
                    == batch.filter(counts(groups[k].0))
        }),
{
    let ids = batch.map_values(|message: TerminalEventMsg| message.terminal_id.value);
    vstd::seq_lib::seq_to_set_is_finite(ids);
    assert forall|id: u64| #[trigger] by_terminal(batch).dom().contains(id) implies ids.to_set().contains(
        id,
    ) by {
        let i = choose|i: int| 0 <= i < batch.len() && counts(id)(#[trigger] batch[i]);
        assert(ids[i] == id);
    }
    vstd::set_lib::lemma_len_subset(by_terminal(batch).dom(), ids.to_set());
    lemma_finite(by_terminal(batch));
    let groups = in_order(by_terminal(batch));
    assert forall|k: int| 0 <= k < groups.len() implies named(batch, (#[trigger] groups[k]).0)
        && groups[k].1 == batch.filter(counts(groups[k].0)) by {
        lemma_entry(groups, k);
    }
}

/// A turn leaves alone the terminals that no message of it counts for.
pub proof fn other_terminals_are_left_alone(
    plane: PlaneView,
    store: StoreView,
    batch: Seq<TerminalEventMsg>,
    id: u64,
)
    requires
        !named(batch, id),
    ensures
        turn(plane, store, batch).plane.agrees(plane, id),
        !turn(plane, store, batch).changed.contains(id),
        turn(plane, store, batch).store.pending.contains_key(id) == store.pending.contains_key(id),
        turn(plane, store, batch).store.pending[id] == store.pending[id],
{
    lemma_groups(batch);
    let groups = in_order(by_terminal(batch));
    assert forall|k: int, i: int|
        0 <= k < groups.len() && 0 <= i < groups[k].1.len() implies (
    #[trigger] groups[k].1[i]).terminal_id.value == groups[k].0 by {
        lemma_counting(batch, groups[k].0);
        assert(groups[k].1[i] == batch.filter(counts(groups[k].0))[i]);
    }
    lemma_groups_leave_others(
        TurnView {
            plane,
            store,
            writes: Seq::empty(),
            resync: Seq::empty(),
            changed: Set::empty(),
        },
        groups,
        id,
    );
}

/// The answers in some messages, in their order.
pub open spec fn answered(messages: Seq<TerminalEventMsg>) -> Seq<(TerminalId, Seq<u8>)>
    decreases messages.len(),
{
    if messages.len() == 0 {
        Seq::empty()
    } else {
        let last = messages.last();
        match last.kind {
            TerminalEventKind::PtyWrites { writes } => answered(messages.drop_last()) + addressed(
                last.terminal_id,
                writes@,
            ),
            _ => answered(messages.drop_last()),
        }
    }
}

/// The answers of several terminals.
pub open spec fn answered_by(groups: Seq<(u64, Seq<TerminalEventMsg>)>) -> Seq<
    (TerminalId, Seq<u8>),
>
    decreases groups.len(),
{
    if groups.len() == 0 {
        Seq::empty()
    } else {
        answered_by(groups.drop_last()) + answered(groups.last().1)
    }
}

proof fn lemma_gathered_answers(gather: GatherView, messages: Seq<TerminalEventMsg>)
    ensures
        gather.with_messages(messages).writes == gather.writes + answered(messages),
    decreases messages.len(),
{
    if messages.len() == 0 {
        assert(gather.writes + answered(messages) =~= gather.writes);
    } else {
        lemma_gathered_answers(gather, messages.drop_last());
        if let TerminalEventKind::PtyWrites { writes } = messages.last().kind {
            let more = addressed(messages.last().terminal_id, writes@);
            assert(gather.writes + answered(messages.drop_last()) + more =~= gather.writes + (
            answered(messages.drop_last()) + more));
        }
    }
}

proof fn lemma_turn_answers(begun: TurnView, groups: Seq<(u64, Seq<TerminalEventMsg>)>)
    ensures
        begun.with_terminals(groups).writes == begun.writes + answered_by(groups),
    decreases groups.len(),
{
    if groups.len() == 0 {
        assert(begun.writes + answered_by(groups) =~= begun.writes);
    } else {
        let before = begun.with_terminals(groups.drop_last());
        lemma_turn_answers(begun, groups.drop_last());
        lemma_gathered_answers(
            GatherView {
                store: before.store,
                latest: None,
                attached: false,
                detached: false,
                writes: before.writes,
                resync: before.resync,
            },
            groups.last().1,
        );
        assert(begun.writes + answered_by(groups.drop_last()) + answered(groups.last().1)
            =~= begun.writes + answered_by(groups));
    }
}

/// No answer for a terminal's process is lost, and those of a terminal keep
/// their order.
pub proof fn answers_are_forwarded_in_order(
    plane: PlaneView,
    store: StoreView,
    batch: Seq<TerminalEventMsg>,
)
    ensures
        turn(plane, store, batch).writes == answered_by(in_order(by_terminal(batch))),
        forall|k: int|
            0 <= k < in_order(by_terminal(batch)).len() ==> (#[trigger] in_order(
                by_terminal(batch),
            )[k]).1 == batch.filter(counts(in_order(by_terminal(batch))[k].0)),
{
    let groups = in_order(by_terminal(batch));
    let begun = TurnView {
        plane,
        store,
        writes: Seq::empty(),
        resync: Seq::empty(),
        changed: Set::empty(),
    };
    lemma_groups(batch);
    lemma_turn_answers(begun, groups);
    assert(begun.writes + answered_by(groups) =~= answered_by(groups));
}

/// A terminal that is attached takes the next attachment, is told its limits and
/// is drawn once its replay is there; one that is released has none of it.
pub proof fn an_attached_terminal_is_known(plane: PlaneView, model: ModelSnapshot, id: TerminalId)
    ensures
        ({
            let after = plane.attaching(model, id);
            &&& after.pending.contains(id.value)
            &&& after.commands.contains(id.value)
            &&& after.attachments.contains_key(id.value)
            &&& after.attachments[id.value] == plane.next_attachment
            &&& plane.next_attachment < u64::MAX ==> after.next_attachment == plane.next_attachment
                + 1
            &&& plane.next_attachment == u64::MAX ==> after.next_attachment == 0
            &&& after.desired.contains_key(id.value)
            &&& !after.is_stale(model, id.value)
            &&& after.snapshots == plane.snapshots
        }),
        ({
            let after = plane.released(id);
            &&& !after.pending.contains(id.value)
            &&& !after.commands.contains(id.value)
            &&& !after.attachments.contains_key(id.value)
            &&& !after.desired.contains_key(id.value)
            &&& !after.cell_sizes.contains_key(id.value)
            &&& after.snapshots == plane.snapshots
            &&& after.next_attachment == plane.next_attachment
        }),
        !plane.forgotten(id).snapshots.contains_key(id.value),
        !plane.ended(id).snapshots.contains_key(id.value),
        !plane.ended(id).commands.contains(id.value),
        plane.ended(id).desired == plane.desired,
{
}

/// A screen that is ready replaces the one before; the screen of an attachment
/// does so only where nothing newer has come.
pub proof fn the_newest_screen_is_gathered(
    gather: GatherView,
    messages: Seq<TerminalEventMsg>,
    message: TerminalEventMsg,
)
    ensures
        ({
            let before = gather.with_messages(messages);
            let after = gather.with_messages(messages.push(message));
            let id = message.terminal_id;
            let stored = before.store.has(id, message.attachment.id);
            &&& message.kind is SnapshotReady && stored ==> after.latest == Some(
                before.store.pending[id.value].snapshot,
            ) && !after.store.pending.contains_key(id.value)
            &&& message.kind is SnapshotReady && !stored ==> after == before
            &&& message.kind matches TerminalEventKind::Attached { snapshot } ==> after.attached
                && after.latest == (if before.latest is Some {
                before.latest
            } else {
                Some(snapshot)
            })
            &&& message.kind is Detached ==> after.detached && after.latest == before.latest
            &&& message.kind is Restart ==> after.resync == before.resync.push(id)
            &&& !(message.kind is Restart) ==> after.resync == before.resync
            &&& !(message.kind is Detached) ==> after.detached == before.detached
            &&& !(message.kind is Attached) ==> after.attached == before.attached
        }),
{
    assert(messages.push(message).drop_last() =~= messages);
}

/// The screen that was gathered is drawn, a terminal whose replay is there is
/// pending no longer, and nothing is kept of one whose attachment has ended.
pub proof fn what_was_gathered_is_drawn(
    turn: TurnView,
    id: TerminalId,
    messages: Seq<TerminalEventMsg>,
)
    ensures
        ({
            let gathered = turn.gathered(messages);
            let after = turn.with_terminal(id, messages);
            &&& gathered.latest is Some && !gathered.detached ==> after.plane.snapshots.contains_key(
                id.value,
            ) && after.plane.snapshots[id.value] == gathered.latest->0
            &&& gathered.latest is None && !gathered.detached ==> after.plane.snapshots
                == turn.plane.snapshots
            &&& gathered.attached ==> !after.plane.pending.contains(id.value)
            &&& !gathered.attached && !gathered.detached ==> after.plane.pending
                == turn.plane.pending
            &&& gathered.detached ==> !after.plane.snapshots.contains_key(id.value)
                && !after.plane.commands.contains(id.value) && !after.store.pending.contains_key(
                id.value,
            )
            &&& gathered.latest is Some || gathered.detached ==> after.changed.contains(id.value)
            &&& gathered.latest is None && !gathered.detached ==> after.changed == turn.changed
            &&& after.writes == gathered.writes
            &&& after.resync == gathered.resync
        }),
{
}

/// Messages of attachments that are wanted no longer do not count.
pub proof fn only_wanted_messages_count(message: TerminalEventMsg, id: u64)
    ensures
        counts(id)(message) == (message.attachment.active && message.terminal_id.value == id),
        !message.attachment.active ==> !counts(id)(message),
{
}

/// A plane starts with nothing attached and the limits that it is given, and a
/// turn with nothing gathered.
pub proof fn a_plane_starts_empty(
    lines: usize,
    inactive: usize,
    total: usize,
    theme: TerminalTheme,
    turn: TurnView,
    id: u64,
)
    ensures
        ({
            let plane = PlaneView::empty(lines, inactive, total, theme);
            &&& !plane.pending.contains(id) && !plane.commands.contains(id)
            &&& !plane.attachments.contains_key(id) && !plane.snapshots.contains_key(id)
            &&& !plane.desired.contains_key(id) && !plane.cell_sizes.contains_key(id)
            &&& plane.next_attachment == 0
            &&& plane.scrollback_lines == lines
            &&& plane.inactive_scrollback_lines == inactive
            &&& plane.max_total_scrollback_bytes == total
            &&& plane.theme == theme
        }),
        ({
            let gathered = turn.gathered(Seq::empty());
            &&& gathered.latest is None && !gathered.attached && !gathered.detached
            &&& gathered.store == turn.store
            &&& gathered.writes == turn.writes
            &&& gathered.resync == turn.resync
        }),
{
}

/// An emulator is told its limits anew where they are not those that it was told
/// last.
pub proof fn an_emulator_is_told_what_changed(plane: PlaneView, model: ModelSnapshot, id: u64)
    ensures
        ({
            let update = plane.update_for(model, id);
            &&& update.terminal_id.value == id
            &&& update.protected == is_protected(model.agents@, TerminalId { value: id })
            &&& update.lines == plane.lines_for(model, TerminalId { value: id })
            &&& plane.commands.contains(id) && !plane.desired.contains_key(id) ==> plane.is_stale(
                model,
                id,
            )
            &&& plane.commands.contains(id) && plane.desired.contains_key(id) ==> plane.is_stale(
                model,
                id,
            ) == (plane.desired[id] != (update.lines, update.protected))
            &&& !plane.commands.contains(id) ==> !plane.is_stale(model, id)
        }),
        plane.plan(model, TerminalId { value: id }).attachment == plane.next_attachment,
        plane.plan(model, TerminalId { value: id }).theme == plane.theme,
        plane.plan(model, TerminalId { value: id }).scrollback_lines == plane.lines_for(
            model,
            TerminalId { value: id },
        ),
{
}

} // verus!

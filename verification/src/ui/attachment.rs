//! The thread of an attachment: replay and live output are interpreted here,
//! and immutable snapshots of the screen are published at a bounded pace.
use std::sync::Arc;

use vstd::prelude::*;
use vstd::slice::*;

use super::events::{
    StoreView, TerminalAttachmentState, TerminalEventMsg, TerminalSnapshotStore,
    MAX_TERMINAL_BYTES_PER_UI_TURN, MAX_TERMINAL_MESSAGES_PER_UI_TURN,
};
use super::plane::{AttachPlan, TerminalEmulatorCommand};
use crate::ids::TerminalId;
use crate::num::min_of;
use crate::terminal::emulator::{
    byte_strings, initial_state, resizes_within_limits, stream_events, EmulatorEffect,
    EmulatorView, TerminalEmulator,
};
use crate::terminal::snapshot::{SnapshotView, TerminalSize, TerminalSnapshot};
use crate::terminal::stream::{
    event_of_wire, StreamEvent, TerminalStreamEvent, WireEvent, WireTerminalEvent,
};

verus! {

/// The least time between two published snapshots while output keeps coming,
/// in nanoseconds.
pub const TERMINAL_SNAPSHOT_MIN_INTERVAL: u64 = 16_000_000;

impl EmulatorView {
    /// After a command of the windows. The cell size is not the emulator's.
    pub open spec fn commanded(self, command: TerminalEmulatorCommand) -> EmulatorView {
        match command {
            TerminalEmulatorCommand::ScrollBy(delta) => if self.countable() {
                self.scrolled_by(delta as int)
            } else {
                self
            },
            TerminalEmulatorCommand::ScrollTo(target) => if self.countable() {
                self.scrolled_to(target as int)
            } else {
                self
            },
            TerminalEmulatorCommand::SetPinned(pinned) => if self.countable() {
                self.with_pin(pinned)
            } else {
                self
            },
            TerminalEmulatorCommand::SetScrollbackLines(lines) => self.with_limit(lines as int),
            TerminalEmulatorCommand::SetScrollbackProtected(protected) => self.with_protection(
                protected,
            ),
            TerminalEmulatorCommand::SetCellSize { .. } => self,
        }
    }

    /// After the commands up to `end`.
    pub open spec fn commanded_by(
        self,
        commands: Seq<TerminalEmulatorCommand>,
    ) -> EmulatorView
        decreases commands.len(),
    {
        if commands.len() == 0 {
            self
        } else {
            self.commanded_by(commands.drop_last()).commanded(commands.last())
        }
    }
}

/// The cell size that some commands end up with.
pub open spec fn last_cell_size(commands: Seq<TerminalEmulatorCommand>) -> Option<(u16, u16)>
    decreases commands.len(),
{
    if commands.len() == 0 {
        None
    } else {
        match commands.last() {
            TerminalEmulatorCommand::SetCellSize { cell_width, cell_height } => Some(
                (cell_width, cell_height),
            ),
            _ => last_cell_size(commands.drop_last()),
        }
    }
}

/// Applies the commands of the windows; returns whether there were any, and
/// the cell size that they set.
pub fn apply_emulator_commands(
    commands: &Vec<TerminalEmulatorCommand>,
    emulator: &mut TerminalEmulator,
) -> (applied: (bool, Option<(u16, u16)>))
    requires
        old(emulator).wf(),
    ensures
        final(emulator).wf(),
        final(emulator)@ == old(emulator)@.commanded_by(commands@),
        applied.0 == (commands@.len() > 0),
        applied.1 == last_cell_size(commands@),
{
    let mut cell_size: Option<(u16, u16)> = None;
    let mut at: usize = 0;
    assert(commands@.take(0) =~= Seq::empty());
    while at < commands.len()
        invariant
            emulator.wf(),
            at <= commands@.len(),
            emulator@ == old(emulator)@.commanded_by(commands@.take(at as int)),
            cell_size == last_cell_size(commands@.take(at as int)),
        decreases commands@.len() - at,
    {
        assert(commands@.take(at + 1).drop_last() =~= commands@.take(at as int));
        match commands[at] {
            TerminalEmulatorCommand::ScrollBy(delta) => {
                let _ = emulator.try_scroll_by(delta);
            },
            TerminalEmulatorCommand::ScrollTo(target) => {
                let _ = emulator.try_scroll_to(target);
            },
            TerminalEmulatorCommand::SetPinned(pinned) => {
                if emulator.countable() {
                    emulator.set_viewport_pinned(pinned);
                }
            },
            TerminalEmulatorCommand::SetScrollbackLines(lines) => {
                emulator.set_scrollback_lines(lines);
            },
            TerminalEmulatorCommand::SetScrollbackProtected(protected) => {
                emulator.set_scrollback_protected(protected);
            },
            TerminalEmulatorCommand::SetCellSize { cell_width, cell_height } => {
                cell_size = Some((cell_width, cell_height));
            },
        }
        at = at + 1;
    }
    assert(commands@.take(at as int) =~= commands@);
    (commands.len() > 0, cell_size)
}

/// What becomes of a snapshot that is published.
#[derive(Debug, Clone, Copy, PartialEq, Eq, Structural)]
pub enum Publication {
    /// The attachment is not wanted any more.
    Stopped,
    /// Nothing has to be announced.
    Quiet,
    /// The windows are to be told that a snapshot is ready.
    Announce,
}

/// Publishes what a piece of the replay has led to, if a snapshot is due.
pub fn publish_replay_progress(
    store: &mut TerminalSnapshotStore,
    terminal_id: TerminalId,
    attachment: TerminalAttachmentState,
    snapshot: Option<TerminalSnapshot>,
) -> (publication: Publication)
    ensures
        if !attachment.active {
            publication == Publication::Stopped && final(store)@ == old(store)@
        } else {
            match snapshot {
                None => publication == Publication::Quiet && final(store)@ == old(store)@,
                Some(snapshot) => {
                    &&& final(store)@ == old(store)@.with_snapshot(
                        terminal_id,
                        attachment.id,
                        Arc::new(snapshot),
                    )
                    &&& publication == if old(store)@.notified.contains(terminal_id.value) {
                        Publication::Quiet
                    } else {
                        Publication::Announce
                    }
                },
            }
        },
{
    if !attachment.is_active() {
        return Publication::Stopped;
    }
    match snapshot {
        None => Publication::Quiet,
        Some(snapshot) => {
            if store.publish_snapshot(terminal_id, attachment, Arc::new(snapshot)) {
                Publication::Announce
            } else {
                Publication::Quiet
            }
        },
    }
}

/// How the mailbox took a message.
#[derive(Debug)]
pub enum SendReply {
    Sent,
    Disconnected,
    Full(TerminalEventMsg),
}

/// What becomes of a message.
#[derive(Debug)]
pub enum ControlStep {
    Published,
    Dropped,
    /// The message is to be sent once more.
    Retry(TerminalEventMsg),
}

/// Publishes a lifecycle or control message without silently dropping it: a
/// full mailbox is tried again for as long as the attachment is wanted.
pub fn publish_control(attachment: TerminalAttachmentState, reply: SendReply) -> (step: ControlStep)
    ensures
        step == match reply {
            SendReply::Sent => ControlStep::Published,
            SendReply::Disconnected => ControlStep::Dropped,
            SendReply::Full(message) => if attachment.active {
                ControlStep::Retry(message)
            } else {
                ControlStep::Dropped
            },
        },
{
    match reply {
        SendReply::Sent => ControlStep::Published,
        SendReply::Disconnected => ControlStep::Dropped,
        SendReply::Full(message) => if attachment.is_active() {
            ControlStep::Retry(message)
        } else {
            ControlStep::Dropped
        },
    }
}

/// The state of an attachment's thread.
#[verifier::ext_equal]
pub struct AttachView {
    pub emulator: EmulatorView,
    /// The geometry of the replay so far.
    pub size: TerminalSize,
    /// The events of the replay that wait to be applied, and their output.
    pub events: Seq<StreamEvent>,
    pub bytes: int,
    /// When a snapshot was published last.
    pub published_at: int,
    /// A command was applied in this round.
    pub commanded: bool,
}

impl AttachView {
    /// At the start of the replay.
    pub open spec fn begun(
        terminal_id: TerminalId,
        size: TerminalSize,
        plan: AttachPlan,
        now: int,
    ) -> AttachView {
        AttachView {
            emulator: initial_state(
                terminal_id,
                size,
                plan.scrollback_lines as int,
                plan.theme,
                plan.scrollback_protected,
            ),
            size,
            events: Seq::empty(),
            bytes: 0,
            published_at: now,
            commanded: false,
        }
    }

    /// A snapshot is due.
    pub open spec fn is_due(self, now: int) -> bool {
        now - self.published_at >= TERMINAL_SNAPSHOT_MIN_INTERVAL
    }

    /// As much of the replay waits as one piece holds.
    pub open spec fn is_full(self) -> bool {
        self.bytes >= MAX_TERMINAL_BYTES_PER_UI_TURN || self.events.len()
            >= MAX_TERMINAL_MESSAGES_PER_UI_TURN
    }

    /// With one more event of the replay waiting.
    pub open spec fn collected(self, event: StreamEvent) -> AttachView {
        AttachView {
            size: match event {
                StreamEvent::Resize { size, .. } => size,
                _ => self.size,
            },
            events: self.events.push(event),
            bytes: min_of(self.bytes + event.output().len(), usize::MAX as int),
            ..self
        }
    }

    /// With the events that waited applied.
    pub open spec fn advanced(self) -> AttachView {
        AttachView {
            emulator: self.emulator.applied(self.events, 0, Seq::empty(), Seq::empty()).0,
            events: Seq::empty(),
            bytes: 0,
            ..self
        }
    }

    /// After one event of the replay as it came over the wire.
    pub open spec fn replayed(self, wire: WireEvent) -> AttachView {
        match event_of_wire(wire, self.size) {
            Some(event) => {
                let collected = self.collected(event);
                if collected.is_full() {
                    collected.advanced()
                } else {
                    collected
                }
            },
            None => self,
        }
    }

    /// One event of the replay fills a piece up.
    pub open spec fn completes(self, wire: WireEvent) -> bool {
        match event_of_wire(wire, self.size) {
            Some(event) => self.collected(event).is_full(),
            None => false,
        }
    }

    /// A live event skips ahead of the stream.
    pub open spec fn skips(self, event: StreamEvent) -> bool {
        event.seq() > self.emulator.last_seq && self.emulator.has_gap(event.seq() as int)
    }
}

/// What one event of the replay leads to.
#[derive(Debug)]
pub enum ReplayStep {
    /// It waits to be applied.
    Collecting,
    /// The events that waited were applied; the snapshot is there if one is
    /// due.
    Advanced { snapshot: Option<TerminalSnapshot> },
}

/// What the windows get once live output or commands have changed the screen.
#[derive(Debug)]
pub struct LivePublication {
    /// The answers for the terminal's process, which go first.
    pub writes: Vec<Vec<u8>>,
    pub snapshot: Option<TerminalSnapshot>,
}

/// The snapshot is what an emulator displays, and it is missing only where
/// the grid does not hold the lines that it displays.
pub open spec fn shows(snapshot: Option<TerminalSnapshot>, emulator: EmulatorView) -> bool {
    match snapshot {
        Some(snapshot) => emulator.displayable() && snapshot@ == emulator.snapshot(),
        None => !emulator.displayable(),
    }
}

/// The thread of an attachment, which owns the terminal's emulator.
pub struct AttachmentWorker {
    emulator: TerminalEmulator,
    tracked_size: TerminalSize,
    replay_events: Vec<TerminalStreamEvent>,
    replay_bytes: usize,
    published_at: u64,
    last_snapshot: Option<TerminalSnapshot>,
    commands_changed: bool,
}

impl View for AttachmentWorker {
    type V = AttachView;

    closed spec fn view(&self) -> AttachView {
        AttachView {
            emulator: self.emulator@,
            size: self.tracked_size,
            events: stream_events(self.replay_events@),
            bytes: self.replay_bytes as int,
            published_at: self.published_at as int,
            commanded: self.commands_changed,
        }
    }
}

impl AttachmentWorker {
    /// The geometries of the events that wait are within the limits.
    pub closed spec fn wf(&self) -> bool {
        &&& self.emulator.wf()
        &&& resizes_within_limits(stream_events(self.replay_events@))
    }

    /// An attachment at the start of its replay.
    pub fn new(terminal_id: TerminalId, size: TerminalSize, plan: AttachPlan, now: u64) -> (worker:
        Self)
        requires
            size.within_limits(),
        ensures
            worker.wf(),
            worker@ == AttachView::begun(terminal_id, size, plan, now as int),
    {
        let worker = Self {
            emulator: TerminalEmulator::with_theme_and_scrollback_protection(
                terminal_id,
                size,
                plan.scrollback_lines,
                plan.theme,
                plan.scrollback_protected,
            ),
            tracked_size: size,
            replay_events: Vec::new(),
            replay_bytes: 0,
            published_at: now,
            last_snapshot: None,
            commands_changed: false,
        };
        assert(worker@ =~= AttachView::begun(terminal_id, size, plan, now as int));
        worker
    }

    fn advance_replay(&mut self)
        requires
            old(self).wf(),
        ensures
            final(self).wf(),
            final(self)@ == old(self)@.advanced(),
    {
        let _ = self.emulator.apply_batch(self.replay_events.as_slice());
        self.replay_events.clear();
        self.replay_bytes = 0;
        assert(self@ =~= old(self)@.advanced());
    }

    /// Takes one event of the replay. A full piece is applied, and a snapshot
    /// of it is due if the last one is old enough.
    pub fn replay(&mut self, wire: &WireTerminalEvent, now: u64) -> (step: ReplayStep)
        requires
            old(self).wf(),
        ensures
            final(self).wf(),
            final(self)@ == old(self)@.replayed(wire@),
            match step {
                ReplayStep::Collecting => !old(self)@.completes(wire@),
                ReplayStep::Advanced { snapshot } => old(self)@.completes(wire@) && if old(
                    self,
                )@.is_due(now as int) {
                    shows(snapshot, final(self)@.emulator)
                } else {
                    snapshot is None
                },
            },
    {
        let event: TerminalStreamEvent = match TerminalStreamEvent::from_wire(
            wire,
            self.tracked_size,
        ) {
            Some(event) => event,
            None => {
                return ReplayStep::Collecting;
            },
        };
        let ghost before = self@;
        let ghost waiting = self.replay_events@;
        if let TerminalStreamEvent::Resize { size, .. } = &event {
            self.tracked_size = *size;
        }
        self.replay_bytes = self.replay_bytes.saturating_add(event.output_bytes());
        self.replay_events.push(event);
        proof {
            assert(stream_events(self.replay_events@) =~= stream_events(waiting).push(event@));
            assert(self@ =~= before.collected(event@));
        }
        if self.replay_bytes >= MAX_TERMINAL_BYTES_PER_UI_TURN || self.replay_events.len()
            >= MAX_TERMINAL_MESSAGES_PER_UI_TURN {
            let due: bool = now.saturating_sub(self.published_at) >= TERMINAL_SNAPSHOT_MIN_INTERVAL;
            self.advance_replay();
            let snapshot: Option<TerminalSnapshot> = if due {
                self.emulator.try_snapshot(None)
            } else {
                None
            };
            return ReplayStep::Advanced { snapshot };
        }
        ReplayStep::Collecting
    }

    /// Notes when a snapshot was published.
    pub fn published(&mut self, now: u64)
        requires
            old(self).wf(),
        ensures
            final(self).wf(),
            final(self)@ == (AttachView { published_at: now as int, ..old(self)@ }),
    {
        self.published_at = now;
    }

    /// Applies what is left of the replay; its snapshot is always published.
    pub fn finish_replay(&mut self) -> (step: ReplayStep)
        requires
            old(self).wf(),
        ensures
            final(self).wf(),
            match step {
                ReplayStep::Collecting => old(self)@.events.len() == 0 && final(self)@ == old(
                    self,
                )@,
                ReplayStep::Advanced { snapshot } => {
                    &&& old(self)@.events.len() > 0
                    &&& final(self)@ == old(self)@.advanced()
                    &&& shows(snapshot, final(self)@.emulator)
                },
            },
    {
        if self.replay_events.len() == 0 {
            return ReplayStep::Collecting;
        }
        self.advance_replay();
        ReplayStep::Advanced { snapshot: self.emulator.try_snapshot(None) }
    }

    /// Switches from the replay to live output; returns what is shown then.
    pub fn start_live(&mut self, now: u64) -> (snapshot: Option<TerminalSnapshot>)
        requires
            old(self).wf(),
        ensures
            final(self).wf(),
            final(self)@ == (AttachView {
                emulator: EmulatorView { live: true, ..old(self)@.emulator },
                published_at: now as int,
                ..old(self)@
            }),
            shows(snapshot, final(self)@.emulator),
    {
        self.emulator.start_live();
        self.published_at = now;
        self.last_snapshot = self.emulator.try_snapshot(None);
        self.emulator.try_snapshot(None)
    }

    /// Applies the commands that came in since the last round; returns the
    /// cell size that they set.
    pub fn take_commands(&mut self, commands: &Vec<TerminalEmulatorCommand>) -> (cell_size: Option<
        (u16, u16),
    >)
        requires
            old(self).wf(),
        ensures
            final(self).wf(),
            final(self)@ == (AttachView {
                emulator: old(self)@.emulator.commanded_by(commands@),
                commanded: commands@.len() > 0,
                ..old(self)@
            }),
            cell_size == last_cell_size(commands@),
    {
        let (changed, cell_size) = apply_emulator_commands(commands, &mut self.emulator);
        self.commands_changed = changed;
        cell_size
    }

    fn publish_live_snapshot(&mut self, now: u64) -> (publication: LivePublication)
        requires
            old(self).wf(),
        ensures
            final(self).wf(),
            byte_strings(publication.writes@) == old(self)@.emulator.writes,
            shows(publication.snapshot, final(self)@.emulator),
            final(self)@ == (AttachView {
                emulator: EmulatorView { writes: Seq::empty(), ..old(self)@.emulator },
                published_at: now as int,
                ..old(self)@
            }),
    {
        let writes: Vec<Vec<u8>> = self.emulator.pty_writes();
        let snapshot: Option<TerminalSnapshot> = self.emulator.try_snapshot(
            self.last_snapshot.as_ref(),
        );
        self.published_at = now;
        LivePublication { writes, snapshot }
    }

    /// A round without live output: what the commands of the round have
    /// changed is published.
    pub fn idle(&mut self, now: u64) -> (publication: Option<LivePublication>)
        requires
            old(self).wf(),
        ensures
            final(self).wf(),
            match publication {
                None => !old(self)@.commanded && final(self)@ == old(self)@,
                Some(publication) => {
                    &&& old(self)@.commanded
                    &&& byte_strings(publication.writes@) == old(self)@.emulator.writes
                    &&& shows(publication.snapshot, final(self)@.emulator)
                    &&& final(self)@ == (AttachView {
                        emulator: EmulatorView { writes: Seq::empty(), ..old(self)@.emulator },
                        published_at: now as int,
                        ..old(self)@
                    })
                },
            },
    {
        if !self.commands_changed {
            return None;
        }
        Some(self.publish_live_snapshot(now))
    }

    /// Applies one live event; returns whether the stream has skipped, so that
    /// the terminal must be attached anew.
    pub fn live_event(&mut self, event: &TerminalStreamEvent) -> (skipped: bool)
        requires
            old(self).wf(),
            resizes_within_limits(seq![event@]),
        ensures
            final(self).wf(),
            skipped == old(self)@.skips(event@),
            final(self)@ == (AttachView {
                emulator: old(self)@.emulator.applied(
                    seq![event@],
                    0,
                    Seq::empty(),
                    Seq::empty(),
                ).0,
                ..old(self)@
            }),
    {
        let effects: Vec<EmulatorEffect> = self.emulator.apply(event);
        let mut skipped: bool = false;
        let mut at: usize = 0;
        proof {
            reveal_with_fuel(EmulatorView::applied, 2);
        }
        while at < effects.len()
            invariant
                at <= effects@.len(),
                skipped == exists|i: int|
                    0 <= i < at && (#[trigger] effects@[i]) is SequenceGap,
            decreases effects@.len() - at,
        {
            if let EmulatorEffect::SequenceGap { .. } = &effects[at] {
                skipped = true;
            }
            assert(effects@[at as int] is SequenceGap ==> skipped);
            at = at + 1;
        }
        proof {
            assert(seq![event@][0] == event@);
            if old(self)@.skips(event@) {
                assert(effects@[0] is SequenceGap);
            }
        }
        skipped
    }

    /// After a live event: a snapshot is published if a command was applied,
    /// if no more output waits, or if the last one is old enough.
    pub fn after_event(&mut self, backlogged: bool, now: u64) -> (publication: Option<
        LivePublication,
    >)
        requires
            old(self).wf(),
        ensures
            final(self).wf(),
            match publication {
                None => {
                    &&& !old(self)@.commanded && backlogged && !old(self)@.is_due(now as int)
                    &&& final(self)@ == old(self)@
                },
                Some(publication) => {
                    &&& old(self)@.commanded || !backlogged || old(self)@.is_due(now as int)
                    &&& byte_strings(publication.writes@) == old(self)@.emulator.writes
                    &&& shows(publication.snapshot, final(self)@.emulator)
                    &&& final(self)@ == (AttachView {
                        emulator: EmulatorView { writes: Seq::empty(), ..old(self)@.emulator },
                        published_at: now as int,
                        ..old(self)@
                    })
                },
            },
    {
        let due: bool = now.saturating_sub(self.published_at) >= TERMINAL_SNAPSHOT_MIN_INTERVAL;
        if !self.commands_changed && backlogged && !due {
            return None;
        }
        let publication: LivePublication = self.publish_live_snapshot(now);
        self.last_snapshot = self.emulator.try_snapshot(self.last_snapshot.as_ref());
        Some(publication)
    }
}

/// A command of the windows moves the display, pins it or limits the history; one
/// about cells changes nothing of the screen, and the last of those counts.
pub proof fn commands_do_what_they_ask(
    emulator: EmulatorView,
    front: Seq<TerminalEmulatorCommand>,
    lines: usize,
    on: bool,
    distance: i64,
    cell_width: u16,
    cell_height: u16,
)
    ensures
        emulator.countable() ==> emulator.commanded(TerminalEmulatorCommand::ScrollBy(distance))
            == emulator.scrolled_by(distance as int),
        emulator.countable() ==> emulator.commanded(TerminalEmulatorCommand::ScrollTo(distance))
            == emulator.scrolled_to(distance as int),
        emulator.countable() ==> emulator.commanded(TerminalEmulatorCommand::SetPinned(on))
            == emulator.with_pin(on),
        emulator.commanded(TerminalEmulatorCommand::SetScrollbackLines(lines))
            == emulator.with_limit(lines as int),
        emulator.commanded(TerminalEmulatorCommand::SetScrollbackProtected(on))
            == emulator.with_protection(on),
        emulator.commanded(TerminalEmulatorCommand::SetCellSize { cell_width, cell_height })
            == emulator,
        last_cell_size(
            front.push(TerminalEmulatorCommand::SetCellSize { cell_width, cell_height }),
        ) == Some((cell_width, cell_height)),
        last_cell_size(front.push(TerminalEmulatorCommand::ScrollBy(distance))) == last_cell_size(
            front,
        ),
        emulator.commanded_by(front.push(TerminalEmulatorCommand::SetPinned(on)))
            == emulator.commanded_by(front).commanded(TerminalEmulatorCommand::SetPinned(on)),
{
    let sized = front.push(TerminalEmulatorCommand::SetCellSize { cell_width, cell_height });
    assert(sized.drop_last() =~= front);
    assert(front.push(TerminalEmulatorCommand::ScrollBy(distance)).drop_last() =~= front);
    assert(front.push(TerminalEmulatorCommand::SetPinned(on)).drop_last() =~= front);
}

/// Events are collected in their order, with the size that a resize gives to
/// those behind it, until they come to 64 KiB of output or to 64 of them.
pub proof fn events_are_collected_in_order(attach: AttachView, event: StreamEvent)
    ensures
        ({
            let after = attach.collected(event);
            &&& after.events == attach.events.push(event)
            &&& after.emulator == attach.emulator
            &&& attach.bytes + event.output().len() <= usize::MAX ==> after.bytes == attach.bytes
                + event.output().len()
            &&& event matches StreamEvent::Resize { size, .. } ==> after.size == size
            &&& !(event is Resize) ==> after.size == attach.size
        }),
        attach.is_full() == (attach.bytes >= 65536 || attach.events.len() >= 64),
        attach.advanced().events.len() == 0,
        attach.advanced().bytes == 0,
        attach.advanced().size == attach.size,
{
}

/// A screen is published at most every sixteen milliseconds.
pub proof fn screens_are_published_at_a_pace(attach: AttachView, now: int)
    ensures
        attach.is_due(now) == (now - attach.published_at >= 16_000_000),
{
}

/// Replayed events are collected, and interpreted together once they fill a turn;
/// an event that cannot be read is passed over.
pub proof fn replayed_events_are_collected(
    attach: AttachView,
    wire: WireEvent,
    event: StreamEvent,
)
    ensures
        event_of_wire(wire, attach.size) is None ==> attach.replayed(wire) == attach
            && !attach.completes(wire),
        event_of_wire(wire, attach.size) == Some(event) ==> {
            let collected = attach.collected(event);
            &&& attach.completes(wire) == collected.is_full()
            &&& collected.is_full() ==> attach.replayed(wire) == collected.advanced()
            &&& !collected.is_full() ==> attach.replayed(wire) == collected
        },
{
}

/// An attachment begins with the emulator that was planned and nothing collected.
pub proof fn an_attachment_begins_as_planned(
    id: TerminalId,
    size: TerminalSize,
    plan: AttachPlan,
    now: int,
)
    ensures
        ({
            let attach = AttachView::begun(id, size, plan, now);
            &&& attach.emulator.terminal_id == id
            &&& attach.emulator.screen.size == size
            &&& attach.emulator.protected == plan.scrollback_protected
            &&& attach.emulator.theme == plan.theme
            &&& attach.size == size
            &&& attach.events.len() == 0
            &&& attach.bytes == 0
            &&& attach.published_at == now
            &&& !attach.commanded
        }),
{
}

/// An event is skipped ahead of where it is newer than the last one and not the
/// next one.
pub proof fn a_gap_is_noticed(attach: AttachView, event: StreamEvent)
    requires
        attach.emulator.live,
        attach.emulator.last_seq != 0,
        attach.emulator.last_seq < u64::MAX,
    ensures
        attach.skips(event) == (event.seq() > attach.emulator.last_seq + 1),
{
}

/// Collected events are interpreted from the first to the last.
pub proof fn collected_events_are_interpreted(attach: AttachView)
    ensures
        attach.advanced().emulator == attach.emulator.applied(
            attach.events,
            0,
            Seq::empty(),
            Seq::empty(),
        ).0,
        attach.advanced().published_at == attach.published_at,
        attach.advanced().commanded == attach.commanded,
{
}

} // verus!

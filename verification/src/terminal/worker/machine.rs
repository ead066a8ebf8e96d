//! The worker's decisions on commands, output, input and probes. Times are
//! nanoseconds since the worker was started.
use std::sync::Arc;

use vstd::prelude::*;
use vstd::slice::*;
use vstd::string::*;

use super::drain::ReadEffect;
use super::metadata::{
    apply_process_metadata_result, ProbeReply, ProcessMetadata, ProcessMetadataFallback,
    ProcessView,
};
use super::title::{title_texts, ScannerView, TitleScanner};
use crate::ids::TerminalId;
use crate::num::{max_of, min_of};
use crate::shared::share;
use crate::terminal::manager::TerminalWorkerCommand;
use crate::terminal::registry::{EntryView, TerminalRegistry};
use crate::terminal::replay::{
    appending_keeps_the_ring_valid, evicted, eviction_keeps_the_newest, RetainedEvent, RetainedKind,
    RingView,
};
use crate::terminal::snapshot::TerminalSize;
use crate::terminal::stream::{
    numbered_in_a_row, StreamEvent, TerminalSeq, TerminalStreamEvent, MAX_OUTPUT_EVENT_BYTES,
};
use crate::text::same_text;

verus! {

pub const MAX_COMMANDS_PER_TICK: usize = 64;

/// One tick of the worker loop will coalesce at most this much PTY output
/// before yielding to command processing.
pub const MAX_PTY_BYTES_PER_TICK: usize = 16 * 1024 * 1024;

pub const PROCESS_METADATA_REFRESH_NANOS: u64 = 500_000_000;

/// PTY output within this window marks the foreground process as active for
/// agent-status purposes. The flip to quiet is observed on the regular
/// metadata refresh cycle, so it adds at most one event per output burst.
pub const PROCESS_ACTIVE_NANOS: u64 = 2_000_000_000;

/// A held key repeats every ~20ms on macOS fast repeat settings, while a
/// themed shell prompt (starship + git/async segments) needs a comparable
/// amount of time to accept a line and finish redrawing it. Delivering each
/// keystroke the instant it arrives lets repeats land inside the shell's own
/// redraw window, which makes ZLE abort the redisplay and fall back to raw
/// line feeds (visible as irregular blank rows between prompts). While input
/// commands keep arriving inside this gap, consecutive bytes are coalesced
/// into one PTY write, bounded by the max wait and size below. Isolated
/// keystrokes stay on the zero-extra-latency immediate path.
pub const INPUT_COALESCE_GAP_NANOS: u64 = 60_000_000;

pub const INPUT_COALESCE_MAX_WAIT_NANOS: u64 = 24_000_000;

pub const INPUT_COALESCE_MAX_BYTES: usize = 4096;

/// The first number of a worker's events: a history starts with its geometry
/// anchor.
pub const FIRST_WORKER_SEQ: TerminalSeq = 2;

/// Input that waits to be written in one piece.
#[derive(Debug)]
pub struct InputBuffer {
    pending: Vec<u8>,
    started: u64,
    last_input: Option<u64>,
}

/// Waiting input by its values.
#[verifier::ext_equal]
pub struct InputView {
    pub pending: Seq<u8>,
    pub started: u64,
    pub last_input: Option<u64>,
}

/// How much later a time is than an earlier one.
pub open spec fn since(now: u64, earlier: u64) -> int {
    max_of(now - earlier, 0)
}

impl InputView {
    pub open spec fn empty() -> InputView {
        InputView { pending: Seq::empty(), started: 0, last_input: None }
    }

    /// Input at this time joins what waits, or starts to wait, because other
    /// input came shortly before.
    pub open spec fn coalesces(self, now: u64) -> bool {
        self.pending.len() > 0 || (self.last_input is Some && since(now, self.last_input->0)
            <= INPUT_COALESCE_GAP_NANOS)
    }

    /// What waits after more input, and what is written at once.
    pub open spec fn with_input(self, bytes: Seq<u8>, now: u64) -> (InputView, Option<Seq<u8>>) {
        if self.coalesces(now) {
            let grown = self.pending + bytes;
            let kept = InputView {
                pending: grown,
                started: if self.pending.len() == 0 {
                    now
                } else {
                    self.started
                },
                last_input: Some(now),
            };
            if grown.len() < INPUT_COALESCE_MAX_BYTES {
                (kept, None)
            } else {
                (InputView { pending: Seq::empty(), ..kept }, Some(grown))
            }
        } else {
            (InputView { last_input: Some(now), ..self }, Some(bytes))
        }
    }

    /// What waits after everything that waited is to be written.
    pub open spec fn flushed(self) -> (InputView, Option<Seq<u8>>) {
        if self.pending.len() > 0 {
            (InputView { pending: Seq::empty(), ..self }, Some(self.pending))
        } else {
            (self, None)
        }
    }

    /// What waits after a deadline is looked at, and what is written.
    pub open spec fn at_deadline(self, now: u64) -> (InputView, Option<Seq<u8>>) {
        if self.pending.len() > 0 && since(now, self.started) >= INPUT_COALESCE_MAX_WAIT_NANOS {
            (InputView { pending: Seq::empty(), ..self }, Some(self.pending))
        } else {
            (self, None)
        }
    }
}

impl View for InputBuffer {
    type V = InputView;

    closed spec fn view(&self) -> InputView {
        InputView { pending: self.pending@, started: self.started, last_input: self.last_input }
    }
}

pub open spec fn written(write: Option<Vec<u8>>) -> Option<Seq<u8>> {
    match write {
        Some(bytes) => Some(bytes@),
        None => None,
    }
}

impl InputBuffer {
    pub fn new() -> (buffer: Self)
        ensures
            buffer@ == InputView::empty(),
    {
        let buffer = Self { pending: Vec::new(), started: 0, last_input: None };
        assert(buffer@ =~= InputView::empty());
        buffer
    }

    pub fn is_empty(&self) -> (empty: bool)
        ensures
            empty == (self@.pending.len() == 0),
    {
        self.pending.len() == 0
    }

    /// Takes more input; returns what is to be written at once.
    pub fn input(&mut self, bytes: Vec<u8>, now: u64) -> (write: Option<Vec<u8>>)
        ensures
            (final(self)@, written(write)) == old(self)@.with_input(bytes@, now),
    {
        let recent: bool = match self.last_input {
            Some(at) => now.saturating_sub(at) <= INPUT_COALESCE_GAP_NANOS,
            None => false,
        };
        let coalescing: bool = self.pending.len() > 0 || recent;
        self.last_input = Some(now);
        if coalescing {
            if self.pending.len() == 0 {
                self.started = now;
            }
            let ghost before = self.pending@;
            self.pending.extend_from_slice(bytes.as_slice());
            assert(self.pending@ =~= before + bytes@);
            if self.pending.len() < INPUT_COALESCE_MAX_BYTES {
                None
            } else {
                Some(self.take())
            }
        } else {
            Some(bytes)
        }
    }

    fn take(&mut self) -> (bytes: Vec<u8>)
        ensures
            bytes@ == old(self)@.pending,
            final(self)@ == (InputView { pending: Seq::empty(), ..old(self)@ }),
    {
        let mut bytes: Vec<u8> = Vec::new();
        assert(bytes@ =~= Seq::empty());
        std::mem::swap(&mut bytes, &mut self.pending);
        bytes
    }

    /// Returns what waits.
    pub fn flush(&mut self) -> (write: Option<Vec<u8>>)
        ensures
            (final(self)@, written(write)) == old(self)@.flushed(),
    {
        if self.pending.len() > 0 {
            Some(self.take())
        } else {
            None
        }
    }

    /// Returns what waits, once it has waited long enough.
    pub fn flush_due(&mut self, now: u64) -> (write: Option<Vec<u8>>)
        ensures
            (final(self)@, written(write)) == old(self)@.at_deadline(now),
    {
        if self.pending.len() > 0 && now.saturating_sub(self.started)
            >= INPUT_COALESCE_MAX_WAIT_NANOS {
            Some(self.take())
        } else {
            None
        }
    }

    /// How long what waits may still wait.
    pub fn wait_left(&self, now: u64) -> (nanos: u64)
        ensures
            nanos == max_of(INPUT_COALESCE_MAX_WAIT_NANOS - since(now, self@.started), 0),
    {
        INPUT_COALESCE_MAX_WAIT_NANOS.saturating_sub(now.saturating_sub(self.started))
    }
}

/// Nothing of the input is lost or reordered: what was waiting and what comes
/// is, in this order, what is written and what waits after it.
pub proof fn input_is_neither_lost_nor_reordered(input: InputView, bytes: Seq<u8>, now: u64)
    ensures
        ({
            let (after, write) = input.with_input(bytes, now);
            input.pending + bytes == match write {
                Some(write) => write + after.pending,
                None => after.pending,
            }
        }),
        ({
            let (after, write) = input.at_deadline(now);
            input.pending == match write {
                Some(write) => write + after.pending,
                None => after.pending,
            }
        }),
        ({
            let (after, write) = input.flushed();
            input.pending == match write {
                Some(write) => write + after.pending,
                None => after.pending,
            }
        }),
{
    let (after, write) = input.with_input(bytes, now);
    if write is Some {
        assert(input.pending + bytes =~= write->0 + after.pending);
    }
    let (after, write) = input.at_deadline(now);
    if write is Some {
        assert(input.pending =~= write->0 + after.pending);
    }
    let (after, write) = input.flushed();
    if write is Some {
        assert(input.pending =~= write->0 + after.pending);
    }
}

/// Input that comes after a pause is written at once.
pub proof fn isolated_input_is_written_at_once(input: InputView, bytes: Seq<u8>, now: u64)
    requires
        input.pending.len() == 0,
        input.last_input is None || since(now, input.last_input->0) > INPUT_COALESCE_GAP_NANOS,
    ensures
        input.with_input(bytes, now).1 == Some(bytes),
{
}

/// Less than a bounded amount of input waits at any time.
pub proof fn waiting_input_is_bounded(input: InputView, bytes: Seq<u8>, now: u64)
    requires
        input.pending.len() < INPUT_COALESCE_MAX_BYTES,
    ensures
        input.with_input(bytes, now).0.pending.len() < INPUT_COALESCE_MAX_BYTES,
{
}

/// The titles that are announced: those that differ from the one before.
pub open spec fn title_changes(last: Option<Seq<char>>, titles: Seq<Seq<char>>) -> (
    Option<Seq<char>>,
    Seq<Seq<char>>,
)
    decreases titles.len(),
{
    if titles.len() == 0 {
        (last, Seq::empty())
    } else {
        let (before, changes) = title_changes(last, titles.drop_last());
        if before == Some(titles.last()) {
            (before, changes)
        } else {
            (Some(titles.last()), changes.push(titles.last()))
        }
    }
}

/// The first piece of some output.
pub open spec fn first_piece(bytes: Seq<u8>) -> Seq<u8> {
    bytes.take(min_of(bytes.len() as int, MAX_OUTPUT_EVENT_BYTES as int))
}

/// The output behind its first piece.
pub open spec fn later_pieces(bytes: Seq<u8>) -> Seq<u8> {
    bytes.skip(min_of(bytes.len() as int, MAX_OUTPUT_EVENT_BYTES as int))
}

/// The history after output that is recorded in pieces.
pub open spec fn with_output(ring: RingView, size: TerminalSize, bytes: Seq<u8>) -> RingView
    decreases bytes.len(),
{
    if bytes.len() == 0 {
        ring
    } else {
        with_output(
            ring.appended(size, RetainedKind::Output(first_piece(bytes))),
            size,
            later_pieces(bytes),
        )
    }
}

/// A terminal after output: its history has the output in pieces, and the
/// recent output those who wait for a text look at ends with it.
pub open spec fn with_entry_output(entry: EntryView, size: TerminalSize, bytes: Seq<u8>) -> EntryView {
    EntryView { replay: with_output(entry.replay, size, bytes), ..entry }.announced(bytes)
}

/// The events that output is sent as.
pub open spec fn output_events(next_seq: int, size: TerminalSize, bytes: Seq<u8>) -> Seq<
    StreamEvent,
>
    decreases bytes.len(),
{
    if bytes.len() == 0 {
        Seq::empty()
    } else {
        seq![StreamEvent::Output { seq: next_seq as u64, size, bytes: first_piece(bytes) }]
            + output_events(next_seq + 1, size, later_pieces(bytes))
    }
}

/// The output of some events, one after the other.
pub open spec fn all_output(events: Seq<StreamEvent>) -> Seq<u8>
    decreases events.len(),
{
    if events.len() == 0 {
        Seq::empty()
    } else {
        events[0].output() + all_output(events.drop_first())
    }
}

/// The events carry the output, all of it and in its order, each a bounded
/// part.
pub proof fn events_carry_the_output(next_seq: int, size: TerminalSize, bytes: Seq<u8>)
    ensures
        all_output(output_events(next_seq, size, bytes)) == bytes,
        forall|i: int|
            0 <= i < output_events(next_seq, size, bytes).len() ==> (#[trigger] output_events(
                next_seq,
                size,
                bytes,
            )[i]).output().len() <= MAX_OUTPUT_EVENT_BYTES,
    decreases bytes.len(),
{
    if bytes.len() > 0 {
        let later = later_pieces(bytes);
        events_carry_the_output(next_seq + 1, size, later);
        let events = output_events(next_seq, size, bytes);
        assert(events.drop_first() =~= output_events(next_seq + 1, size, later));
        assert(first_piece(bytes) + later =~= bytes);
        assert forall|i: int| 0 <= i < events.len() implies (#[trigger] events[i]).output().len()
            <= MAX_OUTPUT_EVENT_BYTES by {
            if i > 0 {
                assert(events[i] == output_events(next_seq + 1, size, later)[i - 1]);
            }
        }
    }
}

/// The events of some output are numbered without a gap, and what the history
/// records next, more output, a resize or the exit, takes the number behind
/// them.
pub proof fn output_is_numbered_without_gaps(ring: RingView, size: TerminalSize, bytes: Seq<u8>)
    requires
        0 <= ring.next_seq,
        ring.next_seq + bytes.len() <= u64::MAX,
    ensures
        with_output(ring, size, bytes).next_seq == ring.next_seq + output_events(
            ring.next_seq,
            size,
            bytes,
        ).len(),
        forall|i: int|
            0 <= i < output_events(ring.next_seq, size, bytes).len() ==> (#[trigger] output_events(
                ring.next_seq,
                size,
                bytes,
            )[i]).seq() == ring.next_seq + i,
    decreases bytes.len(),
{
    if bytes.len() > 0 {
        let later = later_pieces(bytes);
        let next = ring.appended(size, RetainedKind::Output(first_piece(bytes)));
        output_is_numbered_without_gaps(next, size, later);
        let events = output_events(ring.next_seq, size, bytes);
        assert forall|i: int| 0 <= i < events.len() implies (#[trigger] events[i]).seq()
            == ring.next_seq + i by {
            if i > 0 {
                assert(events[i] == output_events(next.next_seq, size, later)[i - 1]);
            }
        }
    }
}

/// What announcing output comes to.
#[derive(Debug)]
pub struct Published {
    /// The titles that changed, in order.
    pub titles: Vec<String>,
    /// The events for the attached clients, in order.
    pub events: Vec<TerminalStreamEvent>,
}

/// What some events say.
pub open spec fn events_view(events: Seq<TerminalStreamEvent>) -> Seq<StreamEvent> {
    events.map_values(|event: TerminalStreamEvent| event@)
}

/// What a command asks the worker to do, once what is to be written is.
#[derive(Debug, Clone, Copy, PartialEq, Eq, Structural)]
pub enum CommandAction {
    /// Nothing more.
    Keep,
    /// Collect everything that was read, announce it, and resize.
    Resize(TerminalSize),
    /// Register the client and answer it.
    Attach,
    /// Kill the processes and stop.
    Kill,
}

/// What a command comes to: first the input that is to be written to the
/// pseudo-terminal, and only behind it what else is to be done.
#[derive(Debug)]
pub struct CommandStep {
    pub write: Option<Vec<u8>>,
    pub action: CommandAction,
}

/// A worker by its values.
#[verifier::ext_equal]
pub struct WorkerView {
    pub terminal_id: TerminalId,
    pub size: TerminalSize,
    pub input: InputView,
    /// How many commands this tick has handled.
    pub commands: int,
    /// Whether the last command filled the tick.
    pub batch_full: bool,
    /// Whether input came in this tick.
    pub input_activity: bool,
    /// Whether the last drain left something behind.
    pub data_pending: bool,
    pub reader_eof: bool,
    pub last_output: u64,
    pub last_title: Option<Seq<char>>,
    pub scanner: ScannerView,
    pub last_probe: u64,
    pub probe_in_flight: bool,
    pub metadata: ProcessView,
    /// The number of the next event, where the terminal is registered no
    /// longer.
    pub next_seq: int,
}

/// What the end of a tick comes to.
#[derive(Debug)]
pub struct TickOutcome {
    /// Whether the metadata of the process is announced.
    pub announce: bool,
    /// Whether the process is to be probed.
    pub probe: bool,
    /// What is to be written.
    pub write: Option<Vec<u8>>,
}

/// What the end of a tick comes to, by its values.
#[verifier::ext_equal]
pub struct Outcome {
    pub announce: bool,
    pub probe: bool,
    pub write: Option<Seq<u8>>,
}

impl WorkerView {
    pub open spec fn started(
        terminal_id: TerminalId,
        size: TerminalSize,
        metadata: ProcessView,
        now: u64,
    ) -> WorkerView {
        WorkerView {
            terminal_id,
            size,
            input: InputView::empty(),
            commands: 0,
            batch_full: false,
            input_activity: false,
            data_pending: false,
            reader_eof: false,
            last_output: now,
            last_title: None,
            scanner: ScannerView::started(),
            last_probe: now,
            probe_in_flight: false,
            metadata,
            next_seq: FIRST_WORKER_SEQ as int,
        }
    }

    /// The worker after one more command in this tick.
    pub open spec fn counted(self) -> WorkerView {
        WorkerView {
            commands: self.commands + 1,
            batch_full: self.commands + 1 == MAX_COMMANDS_PER_TICK,
            ..self
        }
    }

    /// The number of the next event: the history of the terminal gives it out,
    /// and the worker goes on from there once the terminal is registered no
    /// longer.
    pub open spec fn next_number(self, registry: Map<u64, EntryView>) -> int {
        if registry.contains_key(self.terminal_id.value) {
            registry[self.terminal_id.value].replay.next_seq
        } else {
            self.next_seq
        }
    }

    /// The worker after a command that is no input: input that waits is
    /// written before it, so ordering with the pseudo-terminal stays
    /// predictable.
    pub open spec fn interrupted(self) -> (WorkerView, Option<Seq<u8>>) {
        let (input, write) = self.input.flushed();
        (WorkerView { input, ..self.counted() }, write)
    }

    /// The worker after input, and what is written.
    pub open spec fn with_input(self, bytes: Seq<u8>, now: u64) -> (WorkerView, Option<Seq<u8>>) {
        let (input, write) = self.input.with_input(bytes, now);
        (WorkerView { input, input_activity: true, ..self.counted() }, write)
    }

    /// How long the worker may sleep before it has something to do.
    pub open spec fn sleep(self, now: u64) -> int {
        let probe = max_of(PROCESS_METADATA_REFRESH_NANOS - since(now, self.last_probe), 0);
        let idle = if self.batch_full || self.data_pending {
            0
        } else {
            probe
        };
        if self.input.pending.len() > 0 && !self.batch_full {
            min_of(
                idle,
                max_of(INPUT_COALESCE_MAX_WAIT_NANOS - since(now, self.input.started), 0),
            )
        } else {
            idle
        }
    }

    /// The process printed something lately.
    pub open spec fn is_active(self, now: u64) -> bool {
        since(now, self.last_output) < PROCESS_ACTIVE_NANOS
    }

    /// The metadata of the process is old enough to be asked for again.
    pub open spec fn is_due(self, now: u64) -> bool {
        since(now, self.last_probe) >= PROCESS_METADATA_REFRESH_NANOS
    }

    /// The worker with what the probe has sent.
    pub open spec fn with_reply(self, reply: ProbeReply) -> WorkerView {
        match reply {
            ProbeReply::Metadata(next) => WorkerView {
                metadata: ProcessView { active: self.metadata.active, ..next@ },
                probe_in_flight: false,
                ..self
            },
            ProbeReply::Empty => self,
            ProbeReply::Closed => WorkerView { probe_in_flight: false, ..self },
        }
    }

    /// The worker at the end of a tick. What the probe has sent and the
    /// activity of the process are announced where they changed; a probe is
    /// asked for when it is due and the terminal is quiet; input that has
    /// waited long enough is written.
    pub open spec fn settled(self, reply: ProbeReply, had_output: bool, now: u64) -> (
        WorkerView,
        Outcome,
    ) {
        let replied = self.with_reply(reply);
        let metadata = ProcessView { active: self.is_active(now), ..replied.metadata };
        let (input, write) = self.input.at_deadline(now);
        (
            WorkerView {
                metadata,
                input,
                last_probe: if self.is_due(now) {
                    now
                } else {
                    self.last_probe
                },
                ..replied
            },
            Outcome {
                announce: metadata != self.metadata,
                probe: self.is_due(now) && !had_output && !self.input_activity
                    && !replied.probe_in_flight,
                write,
            },
        )
    }
}

/// The state of a terminal's worker.
#[derive(Debug)]
pub struct Worker {
    terminal_id: TerminalId,
    size: TerminalSize,
    input: InputBuffer,
    commands: usize,
    batch_full: bool,
    input_activity: bool,
    data_pending: bool,
    reader_eof: bool,
    last_output: u64,
    last_title: Option<String>,
    scanner: TitleScanner,
    last_probe: u64,
    probe_in_flight: bool,
    metadata: ProcessMetadata,
    next_seq: TerminalSeq,
}

pub open spec fn optional_title(title: Option<String>) -> Option<Seq<char>> {
    match title {
        Some(title) => Some(title@),
        None => None,
    }
}

impl View for Worker {
    type V = WorkerView;

    closed spec fn view(&self) -> WorkerView {
        WorkerView {
            terminal_id: self.terminal_id,
            size: self.size,
            input: self.input@,
            commands: self.commands as int,
            batch_full: self.batch_full,
            input_activity: self.input_activity,
            data_pending: self.data_pending,
            reader_eof: self.reader_eof,
            last_output: self.last_output,
            last_title: optional_title(self.last_title),
            scanner: self.scanner@,
            last_probe: self.last_probe,
            probe_in_flight: self.probe_in_flight,
            metadata: self.metadata@,
            next_seq: self.next_seq as int,
        }
    }
}

impl Worker {
    pub fn new(
        terminal_id: TerminalId,
        size: TerminalSize,
        fallback: &ProcessMetadataFallback,
        now: u64,
    ) -> (worker: Self)
        ensures
            worker@ == WorkerView::started(terminal_id, size, fallback@, now),
    {
        Self {
            terminal_id,
            size,
            input: InputBuffer::new(),
            commands: 0,
            batch_full: false,
            input_activity: false,
            data_pending: false,
            reader_eof: false,
            last_output: now,
            last_title: None,
            scanner: TitleScanner::new(),
            last_probe: now,
            probe_in_flight: false,
            metadata: ProcessMetadata::from_fallback(fallback),
            next_seq: FIRST_WORKER_SEQ,
        }
    }

    pub fn terminal_id(&self) -> (id: TerminalId)
        ensures
            id == self@.terminal_id,
    {
        self.terminal_id
    }

    /// The geometry that output is produced at.
    pub fn size(&self) -> (size: TerminalSize)
        ensures
            size == self@.size,
    {
        self.size
    }

    /// What is known of the process.
    pub fn metadata(&self) -> (metadata: &ProcessMetadata)
        ensures
            metadata@ == self@.metadata,
    {
        &self.metadata
    }

    /// Whether the reader may still have something.
    pub fn reads(&self) -> (reads: bool)
        ensures
            reads == !self@.reader_eof,
    {
        !self.reader_eof
    }

    pub fn begin_tick(&mut self)
        ensures
            final(self)@ == (WorkerView {
                commands: 0,
                batch_full: false,
                input_activity: false,
                ..old(self)@
            }),
    {
        self.commands = 0;
        self.batch_full = false;
        self.input_activity = false;
    }

    /// Whether this tick takes another command.
    pub fn takes_command(&self) -> (takes: bool)
        ensures
            takes == (self@.commands < MAX_COMMANDS_PER_TICK),
    {
        self.commands < MAX_COMMANDS_PER_TICK
    }

    /// Decides what a command asks for.
    pub fn command(&mut self, command: TerminalWorkerCommand, now: u64) -> (step: CommandStep)
        requires
            old(self)@.commands < MAX_COMMANDS_PER_TICK,
        ensures
            (final(self)@, written(step.write)) == match command {
                TerminalWorkerCommand::SendText(bytes) => old(self)@.with_input(bytes@, now),
                TerminalWorkerCommand::SendBytes(bytes) => old(self)@.with_input(bytes@, now),
                _ => old(self)@.interrupted(),
            },
            step.action == match command {
                TerminalWorkerCommand::Resize(size) => CommandAction::Resize(size),
                TerminalWorkerCommand::Attach => CommandAction::Attach,
                TerminalWorkerCommand::Shutdown => CommandAction::Kill,
                _ => CommandAction::Keep,
            },
    {
        self.commands = self.commands + 1;
        self.batch_full = self.commands == MAX_COMMANDS_PER_TICK;
        match command {
            TerminalWorkerCommand::SendText(bytes) => self.take_input(bytes, now),
            TerminalWorkerCommand::SendBytes(bytes) => self.take_input(bytes, now),
            TerminalWorkerCommand::Resize(size) => {
                let write: Option<Vec<u8>> = self.input.flush();
                CommandStep { write, action: CommandAction::Resize(size) }
            },
            TerminalWorkerCommand::Attach => {
                let write: Option<Vec<u8>> = self.input.flush();
                CommandStep { write, action: CommandAction::Attach }
            },
            TerminalWorkerCommand::Shutdown => {
                let write: Option<Vec<u8>> = self.input.flush();
                CommandStep { write, action: CommandAction::Kill }
            },
        }
    }

    fn take_input(&mut self, bytes: Vec<u8>, now: u64) -> (step: CommandStep)
        ensures
            ({
                let (input, write) = old(self)@.input.with_input(bytes@, now);
                &&& final(self)@ == (WorkerView { input, input_activity: true, ..old(self)@ })
                &&& written(step.write) == write
                &&& step.action == CommandAction::Keep
            }),
    {
        self.input_activity = true;
        let write: Option<Vec<u8>> = self.input.input(bytes, now);
        CommandStep { write, action: CommandAction::Keep }
    }

    /// The number of the worker's next event.
    fn number(&self, registry: &TerminalRegistry) -> (seq: TerminalSeq)
        requires
            registry.wf(),
            self@.next_number(registry@) <= u64::MAX,
        ensures
            seq == self@.next_number(registry@),
    {
        match registry.last_seq(self.terminal_id) {
            Some(last) => last + 1,
            None => self.next_seq,
        }
    }

    /// Whether there are numbers left for the events of so many bytes and the
    /// one behind them.
    pub fn has_room(&self, registry: &TerminalRegistry, bytes: usize) -> (room: bool)
        requires
            registry.wf(),
        ensures
            room == (self@.next_number(registry@) + bytes < u64::MAX),
    {
        let last: u64 = match registry.last_seq(self.terminal_id) {
            Some(last) => last,
            None => if self.next_seq > 0 {
                self.next_seq - 1
            } else {
                return (bytes as u64) < u64::MAX;
            },
        };
        bytes as u64 <= u64::MAX - 2 && last < u64::MAX - 1 - bytes as u64
    }

    /// The pseudo-terminal has a new geometry. The history records it behind
    /// the output that was published before; the event is for the clients.
    pub fn resize(&mut self, registry: &mut TerminalRegistry, size: TerminalSize) -> (event:
        TerminalStreamEvent)
        requires
            old(registry).wf(),
            old(self)@.next_number(old(registry)@) < u64::MAX,
        ensures
            final(registry).wf(),
            ({
                let id = old(self)@.terminal_id.value;
                let entry = old(registry)@[id];
                let seq = old(self)@.next_number(old(registry)@);
                &&& event@ == (StreamEvent::Resize { seq: seq as u64, size })
                &&& final(self)@ == (WorkerView { size, next_seq: seq + 1, ..old(self)@ })
                &&& final(registry)@ == if old(registry)@.contains_key(id) {
                    old(registry)@.insert(
                        id,
                        EntryView {
                            replay: entry.replay.appended(size, RetainedKind::Resize),
                            ..entry
                        },
                    )
                } else {
                    old(registry)@
                }
            }),
    {
        let seq: TerminalSeq = self.number(registry);
        self.size = size;
        self.next_seq = seq + 1;
        let _ = registry.push_resize(self.terminal_id, size);
        TerminalStreamEvent::Resize { seq, size }
    }

    /// The pseudo-terminal gets a new geometry. Everything that was read
    /// belongs to the old one: it is published first, so that the stream has
    /// the output at the old size, the resize, and what comes later at the new
    /// size.
    pub fn resize_after_output(
        &mut self,
        registry: &mut TerminalRegistry,
        bytes: &[u8],
        size: TerminalSize,
        now: u64,
    ) -> (resized: (Published, TerminalStreamEvent))
        requires
            old(registry).wf(),
            old(self)@.next_number(old(registry)@) + bytes@.len() < u64::MAX,
        ensures
            final(registry).wf(),
            ({
                let id = old(self)@.terminal_id.value;
                let entry = old(registry)@[id];
                let seq = old(self)@.next_number(old(registry)@);
                let outputs = output_events(seq, old(self)@.size, bytes@);
                let (scanner, titles) = old(self)@.scanner.fed(bytes@);
                let (last_title, changes) = title_changes(old(self)@.last_title, titles);
                &&& title_texts(resized.0.titles@) == changes
                &&& events_view(resized.0.events@) == outputs
                &&& resized.1@ == (StreamEvent::Resize { seq: (seq + outputs.len()) as u64, size })
                &&& final(self)@ == (WorkerView {
                    scanner,
                    last_title,
                    size,
                    next_seq: seq + outputs.len() + 1,
                    last_output: if bytes@.len() > 0 {
                        now
                    } else {
                        old(self)@.last_output
                    },
                    ..old(self)@
                })
                &&& final(registry)@ == if old(registry)@.contains_key(id) {
                    let published = with_entry_output(entry, old(self)@.size, bytes@);
                    old(registry)@.insert(
                        id,
                        EntryView {
                            replay: published.replay.appended(size, RetainedKind::Resize),
                            ..published
                        },
                    )
                } else {
                    old(registry)@
                }
            }),
    {
        proof {
            lemma_few_events(self@.next_number(registry@), self@.size, bytes@);
            lemma_output_numbers(registry@[self@.terminal_id.value].replay, self@.size, bytes@);
        }
        let published: Published = self.publish_raw_output(registry, bytes);
        if bytes.len() > 0 {
            self.printed(now);
        }
        let event: TerminalStreamEvent = self.resize(registry, size);
        proof {
            let id = old(self)@.terminal_id.value;
            if old(registry)@.contains_key(id) {
                let after = with_entry_output(old(registry)@[id], old(self)@.size, bytes@);
                assert(registry@ =~= old(registry)@.insert(
                    id,
                    EntryView {
                        replay: after.replay.appended(size, RetainedKind::Resize),
                        ..after
                    },
                ));
            }
        }
        (published, event)
    }

    /// The process is over. The history records it behind all output; the
    /// event is for the clients.
    pub fn exit(&mut self, registry: &mut TerminalRegistry, code: Option<i32>) -> (event:
        TerminalStreamEvent)
        requires
            old(registry).wf(),
            old(self)@.next_number(old(registry)@) < u64::MAX,
        ensures
            final(registry).wf(),
            ({
                let id = old(self)@.terminal_id.value;
                let entry = old(registry)@[id];
                let seq = old(self)@.next_number(old(registry)@);
                &&& event@ == (StreamEvent::Exit { seq: seq as u64, code })
                &&& final(self)@ == (WorkerView { next_seq: seq + 1, ..old(self)@ })
                &&& final(registry)@ == if old(registry)@.contains_key(id) {
                    old(registry)@.insert(
                        id,
                        EntryView {
                            replay: entry.replay.appended(
                                entry.replay.events.last().size,
                                RetainedKind::Exit(code),
                            ),
                            ..entry
                        },
                    )
                } else {
                    old(registry)@
                }
            }),
    {
        let seq: TerminalSeq = self.number(registry);
        self.next_seq = seq + 1;
        let _ = registry.finish(self.terminal_id, code);
        TerminalStreamEvent::Exit { seq, code }
    }

    /// How long the worker may sleep before it has something to do.
    pub fn poll_timeout(&self, now: u64) -> (nanos: u64)
        ensures
            nanos == self@.sleep(now),
    {
        let mut timeout: u64 = if self.batch_full || self.data_pending {
            // A burst is still in flight: the reader channel may hold
            // unconsumed data, so do not sleep before the next drain.
            0
        } else {
            PROCESS_METADATA_REFRESH_NANOS.saturating_sub(now.saturating_sub(self.last_probe))
        };
        if !self.input.is_empty() && !self.batch_full {
            timeout = timeout.min(self.input.wait_left(now));
        }
        timeout
    }

    /// What a tick's drain says about the next one.
    pub fn drained(&mut self, effect: ReadEffect)
        ensures
            final(self)@ == (WorkerView {
                data_pending: effect == ReadEffect::BudgetExhausted,
                reader_eof: old(self)@.reader_eof || effect == ReadEffect::Eof,
                ..old(self)@
            }),
    {
        match effect {
            ReadEffect::BudgetExhausted => {
                self.data_pending = true;
            },
            ReadEffect::Continue => {
                self.data_pending = false;
            },
            ReadEffect::Eof => {
                self.data_pending = false;
                self.reader_eof = true;
            },
        }
    }

    /// What the drain before a resize says.
    pub fn drained_for_resize(&mut self, effect: ReadEffect)
        ensures
            final(self)@ == (WorkerView {
                reader_eof: old(self)@.reader_eof || effect == ReadEffect::Eof,
                ..old(self)@
            }),
    {
        if let ReadEffect::Eof = effect {
            self.reader_eof = true;
        }
    }

    /// Output was announced.
    pub fn printed(&mut self, now: u64)
        ensures
            final(self)@ == (WorkerView { last_output: now, ..old(self)@ }),
    {
        self.last_output = now;
    }

    /// Decides what the end of a tick comes to.
    pub fn settle(&mut self, reply: ProbeReply, had_output: bool, now: u64) -> (outcome:
        TickOutcome)
        ensures
            ({
                let (after, expected) = old(self)@.settled(reply, had_output, now);
                &&& final(self)@ == after
                &&& outcome.announce == expected.announce
                &&& outcome.probe == expected.probe
                &&& written(outcome.write) == expected.write
            }),
    {
        let mut changed: bool = apply_process_metadata_result(
            reply,
            &mut self.probe_in_flight,
            &mut self.metadata,
        );
        let ghost replied = self.metadata@;
        // The worker owns the activity signal: probe results carry it
        // through unchanged, and it flips on output-burst edges without
        // waiting for the next probe round trip.
        let active: bool = now.saturating_sub(self.last_output) < PROCESS_ACTIVE_NANOS;
        if active != self.metadata.active {
            self.metadata.active = active;
            changed = true;
        }
        let ghost known = ProcessView { active, ..replied };
        assert(self.metadata@ =~= known);
        assert(changed == (known != old(self)@.metadata));
        let mut probe: bool = false;
        if now.saturating_sub(self.last_probe) >= PROCESS_METADATA_REFRESH_NANOS {
            probe = !had_output && !self.input_activity && !self.probe_in_flight;
            self.last_probe = now;
        }
        let write: Option<Vec<u8>> = self.input.flush_due(now);
        TickOutcome { announce: changed, probe, write }
    }

    /// Whether a probe may be asked for: one at a time.
    pub fn may_probe(&self) -> (may: bool)
        ensures
            may == !self@.probe_in_flight,
    {
        !self.probe_in_flight
    }

    /// A probe was accepted.
    pub fn probing(&mut self)
        ensures
            final(self)@ == (WorkerView { probe_in_flight: true, ..old(self)@ }),
    {
        self.probe_in_flight = true;
    }

    /// Appends one raw PTY batch to the history and returns the bounded output
    /// events for the clients. The only parsing here is the linear OSC title
    /// scanner used by control metadata; no screen/cursor/viewport state is
    /// constructed.
    pub fn publish_raw_output(&mut self, registry: &mut TerminalRegistry, bytes: &[u8]) -> (
        published: Published)
        requires
            old(registry).wf(),
            old(self)@.next_number(old(registry)@) + bytes@.len() < u64::MAX,
        ensures
            final(registry).wf(),
            ({
                let id = old(self)@.terminal_id.value;
                let seq = old(self)@.next_number(old(registry)@);
                let outputs = output_events(seq, old(self)@.size, bytes@);
                let (scanner, titles) = old(self)@.scanner.fed(bytes@);
                let (last_title, changes) = title_changes(old(self)@.last_title, titles);
                &&& final(self)@ == (WorkerView {
                    scanner,
                    last_title,
                    next_seq: seq + outputs.len(),
                    ..old(self)@
                })
                &&& title_texts(published.titles@) == changes
                &&& events_view(published.events@) == outputs
                &&& final(registry)@ == if old(registry)@.contains_key(id) {
                    old(registry)@.insert(
                        id,
                        with_entry_output(old(registry)@[id], old(self)@.size, bytes@),
                    )
                } else {
                    old(registry)@
                }
            }),
    {
        let first: TerminalSeq = self.number(registry);
        proof {
            lemma_few_events(first as int, self@.size, bytes@);
        }
        let found: Vec<String> = self.scanner.feed(bytes);
        let titles: Vec<String> = self.changed_titles(found);
        let events: Vec<TerminalStreamEvent> = record_output(
            registry,
            self.terminal_id,
            self.size,
            first,
            bytes,
        );
        assert(events_view(events@).len() == events@.len());
        self.next_seq = first + events.len() as u64;
        registry.publish_output(self.terminal_id, bytes);
        proof {
            let id = old(self)@.terminal_id.value;
            if old(registry)@.contains_key(id) {
                assert(registry@ =~= old(registry)@.insert(
                    id,
                    with_entry_output(old(registry)@[id], old(self)@.size, bytes@),
                ));
            }
        }
        Published { titles, events }
    }

    fn changed_titles(&mut self, found: Vec<String>) -> (titles: Vec<String>)
        ensures
            ({
                let (last_title, changes) = title_changes(
                    old(self)@.last_title,
                    title_texts(found@),
                );
                &&& final(self)@ == (WorkerView { last_title, ..old(self)@ })
                &&& title_texts(titles@) == changes
            }),
    {
        let mut titles: Vec<String> = Vec::new();
        let ghost all = title_texts(found@);
        let ghost start = self@;
        let mut i: usize = 0;
        assert(all.take(0) =~= Seq::empty());
        assert(title_texts(titles@) =~= Seq::empty());
        while i < found.len()
            invariant
                i <= found@.len(),
                all == title_texts(found@),
                self@ == (WorkerView { last_title: self@.last_title, ..start }),
                title_changes(start.last_title, all.take(i as int)) == (
                    self@.last_title,
                    title_texts(titles@),
                ),
            decreases found@.len() - i,
        {
            assert(all.take(i + 1).drop_last() =~= all.take(i as int));
            assert(all.take(i + 1).last() == found@[i as int]@);
            let repeated: bool = match &self.last_title {
                Some(last) => same_text(last.as_str(), found[i].as_str()),
                None => false,
            };
            if !repeated {
                let ghost before = titles@;
                self.last_title = Some(found[i].as_str().to_owned());
                titles.push(found[i].as_str().to_owned());
                assert(title_texts(titles@) =~= title_texts(before).push(found@[i as int]@));
            }
            i = i + 1;
        }
        assert(all.take(i as int) =~= all);
        titles
    }
}

/// Output makes at most as many events as it has bytes.
proof fn lemma_few_events(next_seq: int, size: TerminalSize, bytes: Seq<u8>)
    ensures
        output_events(next_seq, size, bytes).len() <= bytes.len(),
    decreases bytes.len(),
{
    if bytes.len() > 0 {
        lemma_few_events(next_seq + 1, size, later_pieces(bytes));
    }
}

/// Output takes as many numbers of a history as it makes events.
proof fn lemma_output_numbers(ring: RingView, size: TerminalSize, bytes: Seq<u8>)
    ensures
        with_output(ring, size, bytes).next_seq == ring.next_seq + output_events(
            ring.next_seq,
            size,
            bytes,
        ).len(),
    decreases bytes.len(),
{
    if bytes.len() > 0 {
        lemma_output_numbers(
            ring.appended(size, RetainedKind::Output(first_piece(bytes))),
            size,
            later_pieces(bytes),
        );
    }
}

/// Records output in pieces, where the terminal is registered, and returns the
/// events for the clients.
fn record_output(
    registry: &mut TerminalRegistry,
    terminal_id: TerminalId,
    size: TerminalSize,
    first: TerminalSeq,
    bytes: &[u8],
) -> (events: Vec<TerminalStreamEvent>)
    requires
        old(registry).wf(),
        old(registry)@.contains_key(terminal_id.value) ==> old(
            registry,
        )@[terminal_id.value].replay.next_seq == first,
        first + bytes@.len() < u64::MAX,
    ensures
        final(registry).wf(),
        events_view(events@) == output_events(first as int, size, bytes@),
        ({
            let entry = old(registry)@[terminal_id.value];
            final(registry)@ == if old(registry)@.contains_key(terminal_id.value) {
                old(registry)@.insert(
                    terminal_id.value,
                    EntryView { replay: with_output(entry.replay, size, bytes@), ..entry },
                )
            } else {
                old(registry)@
            }
        }),
{
    let ghost id = terminal_id.value;
    let ghost start = registry@;
    let ghost known = start.contains_key(id);
    let ghost ring_before = start[id].replay;
    let mut events: Vec<TerminalStreamEvent> = Vec::new();
    let mut at: usize = 0;
    let mut next: TerminalSeq = first;
    assert(bytes@.skip(0) =~= bytes@);
    assert(events_view(events@) + output_events(first as int, size, bytes@) =~= output_events(
        first as int,
        size,
        bytes@,
    ));
    assert(known ==> registry@ =~= start.insert(id, EntryView { replay: ring_before, ..start[id] }));
    while at < bytes.len()
        invariant
            registry.wf(),
            at <= bytes@.len() == bytes.len(),
            id == terminal_id.value,
            known == start.contains_key(id),
            ring_before == start[id].replay,
            first + bytes@.len() < u64::MAX,
            first <= next <= first + at,
            registry@.contains_key(id) == known,
            !known ==> registry@ == start,
            known ==> {
                &&& registry@[id].replay.next_seq == next
                &&& registry@ == start.insert(
                    id,
                    EntryView { replay: registry@[id].replay, ..start[id] },
                )
                &&& with_output(ring_before, size, bytes@) == with_output(
                    registry@[id].replay,
                    size,
                    bytes@.skip(at as int),
                )
            },
            output_events(first as int, size, bytes@) == events_view(events@) + output_events(
                next as int,
                size,
                bytes@.skip(at as int),
            ),
        decreases bytes@.len() - at,
    {
        let length: usize = (bytes.len() - at).min(MAX_OUTPUT_EVENT_BYTES);
        let chunk: &[u8] = slice_subrange(bytes, at, at + length);
        let piece: Arc<[u8]> = share(slice_to_vec(chunk));
        let ghost rest = bytes@.skip(at as int);
        let ghost earlier = events@;
        assert(piece@ =~= first_piece(rest));
        assert(later_pieces(rest) =~= bytes@.skip(at + length));
        let _ = registry.push_output(terminal_id, size, piece.clone());
        let event = TerminalStreamEvent::Output { seq: next, size, bytes: piece };
        let ghost tail = output_events(next + 1, size, later_pieces(rest));
        events.push(event);
        assert(events_view(events@) =~= events_view(earlier).push(event@));
        assert(events_view(earlier) + (seq![event@] + tail) =~= events_view(earlier).push(event@)
            + tail);
        assert(known ==> registry@ =~= start.insert(
            id,
            EntryView { replay: registry@[id].replay, ..start[id] },
        ));
        next = next + 1;
        at = at + length;
    }
    assert(bytes@.skip(at as int) =~= Seq::empty());
    assert(events_view(events@) + Seq::empty() =~= events_view(events@));
    events
}

/// The stream around a resize: what was read before it, the resize, and what
/// is read after it.
pub open spec fn resized_stream(
    next_seq: int,
    old_size: TerminalSize,
    before: Seq<u8>,
    new_size: TerminalSize,
    after: Seq<u8>,
) -> Seq<StreamEvent> {
    let outputs = output_events(next_seq, old_size, before);
    let resize = StreamEvent::Resize { seq: (next_seq + outputs.len()) as u64, size: new_size };
    outputs.push(resize) + output_events(next_seq + outputs.len() + 1, new_size, after)
}

proof fn lemma_events_of_output(next_seq: int, size: TerminalSize, bytes: Seq<u8>)
    ensures
        forall|i: int|
            0 <= i < output_events(next_seq, size, bytes).len() ==> {
                let event = #[trigger] output_events(next_seq, size, bytes)[i];
                event is Output && event.size() == Some(size) && event.seq() == (next_seq + i) as u64
            },
    decreases bytes.len(),
{
    if bytes.len() > 0 {
        let later = later_pieces(bytes);
        lemma_events_of_output(next_seq + 1, size, later);
        let events = output_events(next_seq, size, bytes);
        assert forall|i: int| 0 <= i < events.len() implies {
            let event = #[trigger] events[i];
            event is Output && event.size() == Some(size) && event.seq() == (next_seq + i) as u64
        } by {
            if i > 0 {
                assert(events[i] == output_events(next_seq + 1, size, later)[i - 1]);
            }
        }
    }
}

/// A resize divides the stream of every client: the output that was read
/// before it comes first, all of it and at the old size; behind the resize all
/// output has the new size. The events are numbered in this order, while there
/// are numbers left.
pub proof fn a_resize_divides_the_stream(
    next_seq: int,
    old_size: TerminalSize,
    before: Seq<u8>,
    new_size: TerminalSize,
    after: Seq<u8>,
)
    ensures
        ({
            let stream = resized_stream(next_seq, old_size, before, new_size, after);
            let at = output_events(next_seq, old_size, before).len() as int;
            &&& 0 <= next_seq && next_seq + before.len() + 1 + after.len() <= u64::MAX
                ==> numbered_in_a_row(stream)
            &&& stream[at] == (StreamEvent::Resize { seq: (next_seq + at) as u64, size: new_size })
            &&& all_output(stream.take(at)) == before
            &&& all_output(stream.skip(at + 1)) == after
            &&& forall|i: int|
                0 <= i < stream.len() && i != at ==> (#[trigger] stream[i]) is Output
                    && stream[i].size() == Some(
                    if i < at {
                        old_size
                    } else {
                        new_size
                    },
                )
        }),
{
    let outputs = output_events(next_seq, old_size, before);
    let at = outputs.len() as int;
    let later = output_events(next_seq + at + 1, new_size, after);
    let stream = resized_stream(next_seq, old_size, before, new_size, after);
    lemma_few_events(next_seq, old_size, before);
    lemma_few_events(next_seq + at + 1, new_size, after);
    lemma_events_of_output(next_seq, old_size, before);
    lemma_events_of_output(next_seq + at + 1, new_size, after);
    events_carry_the_output(next_seq, old_size, before);
    events_carry_the_output(next_seq + at + 1, new_size, after);
    assert(stream.take(at) =~= outputs);
    assert(stream.skip(at + 1) =~= later);
    assert forall|i: int| 0 <= i < stream.len() implies (#[trigger] stream[i]).seq() == (next_seq
        + i) as u64 by {
        if i < at {
            assert(stream[i] == outputs[i]);
        } else if i > at {
            assert(stream[i] == later[i - at - 1]);
        }
    }
    assert forall|i: int| 0 <= i < stream.len() && i != at implies (#[trigger] stream[i]) is Output
        && stream[i].size() == Some(
        if i < at {
            old_size
        } else {
            new_size
        },
    ) by {
        if i < at {
            assert(stream[i] == outputs[i]);
        } else {
            assert(stream[i] == later[i - at - 1]);
        }
    }
}

/// What is retained from `start` on lies as a resize at `at` divides it.
pub open spec fn divided(
    event: RetainedEvent,
    start: int,
    at: int,
    old_size: TerminalSize,
    new_size: TerminalSize,
) -> bool {
    &&& start <= event.seq < at ==> event.kind is Output && event.size == old_size
    &&& event.seq == at ==> event.kind is Resize && event.size == new_size
    &&& event.seq > at ==> event.kind is Output && event.size == new_size
}

pub open spec fn all_divided(
    ring: RingView,
    start: int,
    at: int,
    old_size: TerminalSize,
    new_size: TerminalSize,
) -> bool {
    forall|i: int|
        0 <= i < ring.events.len() ==> divided(
            #[trigger] ring.events[i],
            start,
            at,
            old_size,
            new_size,
        )
}

proof fn lemma_append_divided(
    ring: RingView,
    size: TerminalSize,
    kind: RetainedKind,
    start: int,
    at: int,
    old_size: TerminalSize,
    new_size: TerminalSize,
)
    requires
        ring.valid(),
        0 <= ring.next_seq < u64::MAX,
        all_divided(ring, start, at, old_size, new_size),
        divided(
            RetainedEvent { seq: ring.next_seq as u64, size, kind },
            start,
            at,
            old_size,
            new_size,
        ),
    ensures
        ring.appended(size, kind).valid(),
        all_divided(ring.appended(size, kind), start, at, old_size, new_size),
{
    let event = RetainedEvent { seq: ring.next_seq as u64, size, kind };
    let all = ring.events.push(event);
    appending_keeps_the_ring_valid(ring, size, kind);
    eviction_keeps_the_newest(all, ring.budget);
    let kept = evicted(all, ring.budget);
    let first = all.len() - kept.len();
    assert forall|i: int| 0 <= i < kept.len() implies divided(
        #[trigger] kept[i],
        start,
        at,
        old_size,
        new_size,
    ) by {
        if kept == all.skip(first) {
            assert(kept[i] == all[first + i]);
        }
    }
}

proof fn lemma_output_divided(
    ring: RingView,
    size: TerminalSize,
    bytes: Seq<u8>,
    start: int,
    at: int,
    old_size: TerminalSize,
    new_size: TerminalSize,
)
    requires
        ring.valid(),
        0 <= start <= ring.next_seq,
        ring.next_seq + bytes.len() <= u64::MAX,
        all_divided(ring, start, at, old_size, new_size),
        if ring.next_seq <= at {
            size == old_size && ring.next_seq + output_events(ring.next_seq, size, bytes).len() <= at
        } else {
            size == new_size
        },
    ensures
        with_output(ring, size, bytes).valid(),
        all_divided(with_output(ring, size, bytes), start, at, old_size, new_size),
    decreases bytes.len(),
{
    if bytes.len() > 0 {
        let kind = RetainedKind::Output(first_piece(bytes));
        lemma_append_divided(ring, size, kind, start, at, old_size, new_size);
        let next = ring.appended(size, kind);
        lemma_few_events(next.next_seq, size, later_pieces(bytes));
        if next.next_seq > at && ring.next_seq <= at {
            assert(false);
        }
        lemma_output_divided(
            next,
            size,
            later_pieces(bytes),
            start,
            at,
            old_size,
            new_size,
        );
    }
}

/// A resize divides the history too: whatever of it is retained, what was read
/// before the resize is numbered below it and has the old size, and what is
/// read after it is numbered above it and has the new size.
pub proof fn a_resize_divides_the_history(
    ring: RingView,
    old_size: TerminalSize,
    before: Seq<u8>,
    new_size: TerminalSize,
    after: Seq<u8>,
)
    requires
        ring.valid(),
        0 <= ring.next_seq,
        ring.next_seq + before.len() + 1 + after.len() <= u64::MAX,
    ensures
        ({
            let published = with_output(ring, old_size, before);
            let resized = published.appended(new_size, RetainedKind::Resize);
            all_divided(
                with_output(resized, new_size, after),
                ring.next_seq,
                published.next_seq,
                old_size,
                new_size,
            )
        }),
{
    let start = ring.next_seq;
    let published = with_output(ring, old_size, before);
    let at = published.next_seq;
    let resized = published.appended(new_size, RetainedKind::Resize);
    lemma_output_numbers(ring, old_size, before);
    lemma_few_events(start, old_size, before);
    if before.len() == 0 {
        assert(all_divided(ring, start, at, old_size, new_size));
        assert(published == ring);
    } else {
        lemma_output_divided(ring, old_size, before, start, at, old_size, new_size);
    }
    lemma_append_divided(
        published,
        new_size,
        RetainedKind::Resize,
        start,
        at,
        old_size,
        new_size,
    );
    lemma_output_divided(resized, new_size, after, start, at, old_size, new_size);
}

/// Input that closely follows other input waits with what waits already; it is
/// written together once the first of it has waited for 24 milliseconds or it has
/// come to 4096 bytes.
pub proof fn input_in_quick_succession_is_written_together(
    input: InputView,
    bytes: Seq<u8>,
    now: u64,
    later: u64,
)
    requires
        input.pending.len() > 0 || (input.last_input is Some && input.last_input->0 <= now && now
            - input.last_input->0 <= 60_000_000),
        0 < bytes.len(),
    ensures
        ({
            let (after, write) = input.with_input(bytes, now);
            let small = input.pending.len() + bytes.len() < 4096;
            &&& small ==> write is None && after.pending == input.pending + bytes
            &&& !small ==> write == Some(input.pending + bytes) && after.pending.len() == 0
            &&& after.last_input == Some(now)
            &&& input.pending.len() == 0 ==> after.started == now
            &&& input.pending.len() > 0 ==> after.started == input.started
            &&& small && later >= after.started ==> {
                let (left, due) = after.at_deadline(later);
                &&& later - after.started >= 24_000_000 ==> due == Some(input.pending + bytes)
                    && left.pending.len() == 0
                &&& later - after.started < 24_000_000 ==> due is None && left == after
            }
        }),
{
}

/// A command that is no input has all input that waits written before it.
pub proof fn a_command_stands_behind_the_input_before_it(worker: WorkerView)
    ensures
        ({
            let (after, write) = worker.interrupted();
            &&& after.input.pending.len() == 0
            &&& worker.input.pending.len() > 0 ==> write == Some(worker.input.pending)
            &&& worker.input.pending.len() == 0 ==> write is None
            &&& after.commands == worker.commands + 1
            &&& after.batch_full == (worker.commands == 63)
            &&& after.size == worker.size
            &&& after.last_title == worker.last_title
            &&& after.metadata == worker.metadata
        }),
{
}

/// A title is announced where it differs from the one before it, and the last
/// one is remembered; titles do not depend on how many come at once.
pub proof fn a_title_is_announced_when_it_changes(
    last: Option<Seq<char>>,
    front: Seq<Seq<char>>,
    title: Seq<char>,
)
    ensures
        title_changes(last, Seq::empty()) == (last, Seq::<Seq<char>>::empty()),
        title_changes(last, front.push(title)).0 == Some(title),
        ({
            let before = if front.len() == 0 {
                last
            } else {
                Some(front.last())
            };
            title_changes(last, front.push(title)).1 == if before == Some(title) {
                title_changes(last, front).1
            } else {
                title_changes(last, front).1.push(title)
            }
        }),
    decreases front.len(),
{
    assert(front.push(title).drop_last() =~= front);
    if front.len() > 0 {
        a_title_is_announced_when_it_changes(last, front.drop_last(), front.last());
        assert(front.drop_last().push(front.last()) =~= front);
    }
}

/// Output of up to 64 KiB is one event, for the history and for those who are
/// attached; longer output begins with an event of that size.
pub proof fn output_is_recorded_in_pieces(
    ring: RingView,
    next_seq: int,
    size: TerminalSize,
    bytes: Seq<u8>,
)
    requires
        bytes.len() > 0,
    ensures
        bytes.len() <= 65536 ==> {
            &&& with_output(ring, size, bytes) == ring.appended(size, RetainedKind::Output(bytes))
            &&& output_events(next_seq, size, bytes) == seq![
                StreamEvent::Output { seq: next_seq as u64, size, bytes },
            ]
        },
        bytes.len() > 65536 ==> {
            let (front, back) = (bytes.take(65536), bytes.skip(65536));
            &&& with_output(ring, size, bytes) == with_output(
                with_output(ring, size, front),
                size,
                back,
            )
            &&& output_events(next_seq, size, bytes) == output_events(next_seq, size, front)
                + output_events(next_seq + 1, size, back)
        },
{
    reveal_with_fuel(with_output, 3);
    reveal_with_fuel(output_events, 3);
    if bytes.len() <= 65536 {
        assert(first_piece(bytes) =~= bytes);
        assert(later_pieces(bytes) =~= Seq::empty());
    } else {
        let front = bytes.take(65536);
        assert(first_piece(front) =~= front);
        assert(later_pieces(front) =~= Seq::empty());
        assert(first_piece(bytes) =~= front);
        assert(later_pieces(bytes) =~= bytes.skip(65536));
        assert(output_events(next_seq, size, front) =~= seq![
            StreamEvent::Output { seq: next_seq as u64, size, bytes: front },
        ]);
    }
}

/// The worker never sleeps past what it has to do: it does not sleep at all
/// while work is left, and else until input has waited for 24 milliseconds or the
/// process is to be asked for again, half a second after the last time.
pub proof fn the_worker_wakes_in_time(worker: WorkerView, now: u64)
    requires
        worker.last_probe <= now,
        worker.input.pending.len() > 0 ==> worker.input.started <= now,
    ensures
        ({
            let sleep = worker.sleep(now);
            let probe_at = worker.last_probe + 500_000_000;
            let input_at = worker.input.started + 24_000_000;
            let waits = worker.input.pending.len() > 0;
            &&& 0 <= sleep
            &&& worker.batch_full || worker.data_pending ==> sleep == 0
            &&& now < probe_at ==> now + sleep <= probe_at
            &&& waits && !worker.batch_full && now < input_at ==> now + sleep <= input_at
            &&& probe_at <= now ==> sleep == 0
            &&& waits && input_at <= now ==> sleep == 0 || worker.batch_full
            &&& !worker.batch_full && !worker.data_pending && now < probe_at && (waits ==> now
                < input_at) ==> now + sleep == probe_at || (waits && now + sleep == input_at)
        }),
{
}

/// At the end of a tick the process counts as active where it printed something
/// within the last two seconds; what is known of it is announced where it changed;
/// it is asked for again half a second after the last time, but only while the
/// terminal is quiet and no answer is awaited.
pub proof fn a_tick_reports_what_changed(
    worker: WorkerView,
    next: ProcessMetadata,
    had_output: bool,
    now: u64,
)
    requires
        worker.last_output <= now,
        worker.last_probe <= now,
    ensures
        ({
            let active = now - worker.last_output < 2_000_000_000;
            let due = now - worker.last_probe >= 500_000_000;
            let quiet = !had_output && !worker.input_activity;
            let (kept, still) = worker.settled(ProbeReply::Empty, had_output, now);
            let (told, news) = worker.settled(ProbeReply::Metadata(next), had_output, now);
            let (lost, end) = worker.settled(ProbeReply::Closed, had_output, now);
            &&& kept.metadata == ProcessView { active, ..worker.metadata }
            &&& still.announce == (active != worker.metadata.active)
            &&& still.probe == (due && quiet && !worker.probe_in_flight)
            &&& kept.probe_in_flight == worker.probe_in_flight
            &&& kept.last_probe == if due { now } else { worker.last_probe }
            &&& told.metadata == ProcessView { active, ..next@ }
            &&& news.announce == (told.metadata != worker.metadata)
            &&& news.probe == (due && quiet)
            &&& !told.probe_in_flight
            &&& lost.metadata == kept.metadata
            &&& end.probe == (due && quiet)
            &&& !lost.probe_in_flight
            &&& kept.last_output == worker.last_output
            &&& kept.size == worker.size
        }),
{
}

/// Events of a terminal that is registered take their numbers from its history;
/// those of one that is no longer registered go on from the worker's own.
pub proof fn numbers_come_from_the_history(worker: WorkerView, registry: Map<u64, EntryView>)
    ensures
        registry.contains_key(worker.terminal_id.value) ==> worker.next_number(registry)
            == registry[worker.terminal_id.value].replay.next_seq,
        !registry.contains_key(worker.terminal_id.value) ==> worker.next_number(registry)
            == worker.next_seq,
{
}

/// Output is recorded in the history of its terminal and at the end of its recent
/// output; the state of its process does not change by it.
pub proof fn output_is_recorded_for_its_terminal(
    entry: EntryView,
    size: TerminalSize,
    bytes: Seq<u8>,
)
    ensures
        with_entry_output(entry, size, bytes).replay == with_output(entry.replay, size, bytes),
        with_entry_output(entry, size, bytes).recent_output == entry.announced(bytes).recent_output,
        with_entry_output(entry, size, bytes).process == entry.process,
{
}

/// A worker starts at the size of its terminal, with nothing waiting and nothing
/// announced.
pub proof fn a_worker_starts_idle(
    id: TerminalId,
    size: TerminalSize,
    metadata: ProcessView,
    now: u64,
)
    ensures
        ({
            let worker = WorkerView::started(id, size, metadata, now);
            &&& worker.terminal_id == id
            &&& worker.size == size
            &&& worker.metadata == metadata
            &&& worker.input.pending.len() == 0
            &&& worker.input.last_input is None
            &&& worker.commands == 0
            &&& !worker.batch_full && !worker.input_activity && !worker.data_pending
            &&& !worker.reader_eof && !worker.probe_in_flight
            &&& worker.last_title is None
            &&& worker.last_output == now
            &&& worker.last_probe == now
            &&& worker.next_seq == 2
        }),
{
}

} // verus!

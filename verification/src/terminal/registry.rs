//! The terminals that are known, with their lifecycle and raw history.
use std::sync::Arc;

use vstd::prelude::*;
use vstd::slice::*;
use vstd::string::*;
use vstd::utf8::*;

use super::emulator::stream_events;
use super::replay::{
    charged, eviction_keeps_the_newest, lemma_charged_nonnegative, trimming_keeps_the_ring_valid,
    ReplayRing, RetainedEvent, RetainedKind, RingView, EVENT_OVERHEAD_BYTES, MAX_REPLAY_BYTES,
};
use super::snapshot::{TerminalProcessState, TerminalSize};
use super::stream::{
    numbered_in_a_row, wire_of, TerminalSeq, TerminalStreamEvent, WireEvent, WireTerminalEvent,
};
use crate::decimal::{decimal_text, push_decimal_text};
use crate::idmap::{
    in_order, lemma_entry, lemma_in_order, lemma_map_values, map_of, ordered, IdMap,
};
use crate::ids::TerminalId;
use crate::num::max_of;
use crate::text::{
    contains_bytes, has_run, keep_tail, lemma_tail_fits, lossy_text, read_lossy, tail_within,
};

verus! {

/// Trailing raw output kept for searches.
pub const RECENT_OUTPUT_BYTES: usize = 64 * 1024;

/// Recent-output bytes kept when a retired terminal is compacted.
pub const RETIRED_RECENT_OUTPUT_BYTES: usize = 8 * 1024;

/// Raw replay bytes kept when a terminal is retired.
pub const RETIRED_REPLAY_BYTES: usize = 1024 * 1024;

/// The bounded raw replay history of one terminal. The caller replays
/// the events through a temporary local terminal to inspect the
/// screen; the server itself keeps no long-running emulator.
#[derive(Debug)]
pub struct TerminalReplay {
    pub terminal_id: TerminalId,
    /// Authoritative lifecycle state owned by the server.
    pub process: TerminalProcessState,
    /// Oldest surviving sequence (`None` when the ring is empty).
    pub first_seq: Option<TerminalSeq>,
    /// Sequence of the newest event.
    pub last_seq: TerminalSeq,
    /// Geometry of the oldest surviving event: the screen dimensions a
    /// replier must use before applying the events.
    pub size: TerminalSize,
    /// Wire form of the ordered events (base64 output bytes).
    pub events: Vec<WireTerminalEvent>,
}

/// A replay by its values.
#[verifier::ext_equal]
pub struct ReplayView {
    pub terminal_id: TerminalId,
    pub process: TerminalProcessState,
    pub first_seq: Option<TerminalSeq>,
    pub last_seq: TerminalSeq,
    pub size: TerminalSize,
    pub events: Seq<WireEvent>,
}

/// What some wire events say.
pub open spec fn wire_events(events: Seq<WireTerminalEvent>) -> Seq<WireEvent> {
    events.map_values(|event: WireTerminalEvent| event@)
}

impl View for TerminalReplay {
    type V = ReplayView;

    open spec fn view(&self) -> ReplayView {
        ReplayView {
            terminal_id: self.terminal_id,
            process: self.process,
            first_seq: self.first_seq,
            last_seq: self.last_seq,
            size: self.size,
            events: wire_events(self.events@),
        }
    }
}

/// Why a request to a terminal is refused.
#[derive(Debug)]
pub enum TerminalError {
    NotFound(TerminalId),
    NotRunning(TerminalId),
    SpawnFailed(String),
    WorkerClosed(TerminalId),
    Timeout(u64),
    ProcessExited(TerminalId),
}

/// A refusal by its values.
pub enum Refusal {
    NotFound(TerminalId),
    NotRunning(TerminalId),
    SpawnFailed(Seq<char>),
    WorkerClosed(TerminalId),
    Timeout(u64),
    ProcessExited(TerminalId),
}

impl View for TerminalError {
    type V = Refusal;

    open spec fn view(&self) -> Refusal {
        match self {
            TerminalError::NotFound(id) => Refusal::NotFound(*id),
            TerminalError::NotRunning(id) => Refusal::NotRunning(*id),
            TerminalError::SpawnFailed(text) => Refusal::SpawnFailed(text@),
            TerminalError::WorkerClosed(id) => Refusal::WorkerClosed(*id),
            TerminalError::Timeout(millis) => Refusal::Timeout(*millis),
            TerminalError::ProcessExited(id) => Refusal::ProcessExited(*id),
        }
    }
}

impl Refusal {
    /// What a user is told.
    pub open spec fn message(self) -> Seq<char> {
        match self {
            Refusal::NotFound(id) => "terminal "@ + decimal_text(id.value as nat)
                + " was not found"@,
            Refusal::NotRunning(id) => "terminal "@ + decimal_text(id.value as nat)
                + " is not running"@,
            Refusal::SpawnFailed(text) => "terminal spawn failed: "@ + text,
            Refusal::WorkerClosed(id) => "terminal worker channel closed for "@ + decimal_text(
                id.value as nat,
            ),
            Refusal::Timeout(millis) => "terminal wait timed out after "@ + decimal_text(
                millis as nat,
            ) + "ms"@,
            Refusal::ProcessExited(id) => "terminal "@ + decimal_text(id.value as nat)
                + " exited before the requested condition"@,
        }
    }
}

fn about(before: &str, number: u64, after: &str) -> (text: String)
    ensures
        text@ == before@ + decimal_text(number as nat) + after@,
{
    let mut text = before.to_owned();
    push_decimal_text(&mut text, number);
    text.append(after);
    text
}

impl TerminalError {
    /// What a user is told.
    pub fn message(&self) -> (text: String)
        ensures
            text@ == self@.message(),
    {
        match self {
            Self::NotFound(id) => about("terminal ", id.value, " was not found"),
            Self::NotRunning(id) => about("terminal ", id.value, " is not running"),
            Self::SpawnFailed(reason) => {
                let mut text = "terminal spawn failed: ".to_owned();
                text.append(reason.as_str());
                text
            },
            Self::WorkerClosed(id) => {
                let mut text = "terminal worker channel closed for ".to_owned();
                push_decimal_text(&mut text, id.value);
                text
            },
            Self::Timeout(millis) => about("terminal wait timed out after ", *millis, "ms"),
            Self::ProcessExited(id) => about(
                "terminal ",
                id.value,
                " exited before the requested condition",
            ),
        }
    }
}

/// What is told of an id that is taken.
pub open spec fn taken_message(id: TerminalId) -> Seq<char> {
    "terminal ID "@ + decimal_text(id.value as nat) + " already exists"@
}

pub(crate) fn id_taken(id: TerminalId) -> (error: TerminalError)
    ensures
        error@ == Refusal::SpawnFailed(taken_message(id)),
{
    TerminalError::SpawnFailed(about("terminal ID ", id.value, " already exists"))
}

/// One terminal: its lifecycle, its raw history and the end of its output.
#[derive(Debug)]
pub struct TerminalEntry {
    process: TerminalProcessState,
    /// Bounded raw replay history. The PTY worker is the only writer;
    /// attach/capture paths read ordered snapshots of it.
    replay: ReplayRing,
    /// Trailing raw output used by `contains` fast paths.
    recent_output: String,
}

/// A terminal by its values.
#[verifier::ext_equal]
pub struct EntryView {
    pub process: TerminalProcessState,
    pub replay: RingView,
    pub recent_output: Seq<char>,
}

impl View for TerminalEntry {
    type V = EntryView;

    closed spec fn view(&self) -> EntryView {
        EntryView {
            process: self.process,
            replay: self.replay@,
            recent_output: self.recent_output@,
        }
    }
}

impl EntryView {
    /// A terminal that was just started.
    pub open spec fn started(replay: RingView) -> EntryView {
        EntryView {
            process: TerminalProcessState::Running,
            replay,
            recent_output: Seq::empty(),
        }
    }

    /// The history as it is sent.
    pub open spec fn history(self, id: TerminalId) -> ReplayView {
        ReplayView {
            terminal_id: id,
            process: self.process,
            first_seq: Some(self.replay.events[0].seq),
            last_seq: self.replay.events.last().seq,
            size: self.replay.events[0].size,
            events: self.replay.events.map_values(
                |event: RetainedEvent| wire_of(event.stream_event()),
            ),
        }
    }

    /// The terminal after a batch of output is announced: the end of the
    /// output is kept for searches.
    pub open spec fn announced(self, output: Seq<u8>) -> EntryView {
        if output.len() == 0 {
            self
        } else {
            let tail = output.skip(max_of(output.len() - RECENT_OUTPUT_BYTES, 0));
            EntryView {
                recent_output: tail_within(
                    self.recent_output + lossy_text(tail),
                    RECENT_OUTPUT_BYTES as int,
                ),
                ..self
            }
        }
    }

    /// The text was printed, as far as the history and the end of the output
    /// show it.
    pub open spec fn printed(self, needle: Seq<char>) -> bool {
        ||| has_run(encode_utf8(self.recent_output), encode_utf8(needle))
        ||| needle.len() == 0
        ||| self.replay.output_contains(encode_utf8(needle))
    }

    /// The terminal with as little history as is kept of a closed one.
    pub open spec fn compacted(self) -> EntryView {
        EntryView {
            replay: self.replay.trimmed_to(RETIRED_REPLAY_BYTES as int),
            recent_output: tail_within(self.recent_output, RETIRED_RECENT_OUTPUT_BYTES as int),
            ..self
        }
    }

    /// How many bytes of history and output are kept.
    pub open spec fn retained_bytes(self) -> int {
        charged(self.replay.events) + encode_utf8(self.recent_output).len()
    }
}

impl TerminalEntry {
    pub closed spec fn wf(&self) -> bool {
        self.replay.wf()
    }

    fn started(replay: ReplayRing) -> (entry: Self)
        requires
            replay.wf(),
        ensures
            entry.wf(),
            entry@ == EntryView::started(replay@),
    {
        let entry = Self {
            process: TerminalProcessState::Running,
            replay,
            recent_output: String::new(),
        };
        assert(entry@ =~= EntryView::started(replay@));
        entry
    }

    fn history(&self, terminal_id: TerminalId) -> (replay: TerminalReplay)
        requires
            self.wf(),
        ensures
            replay@ == self@.history(terminal_id),
    {
        let stream: Vec<TerminalStreamEvent> = self.replay.to_stream();
        let mut events: Vec<WireTerminalEvent> = Vec::new();
        let mut i: usize = 0;
        while i < stream.len()
            invariant
                i <= stream@.len(),
                stream@.len() == self.replay@.events.len(),
                forall|k: int|
                    0 <= k < stream@.len() ==> (#[trigger] stream@[k])@
                        == self.replay@.events[k].stream_event(),
                events@.len() == i,
                forall|k: int|
                    0 <= k < i ==> (#[trigger] events@[k])@ == wire_of(
                        self.replay@.events[k].stream_event(),
                    ),
            decreases stream@.len() - i,
        {
            events.push(stream[i].to_wire());
            i = i + 1;
        }
        let size: TerminalSize = match self.replay.first_size() {
            Some(size) => size,
            None => match self.replay.last_size() {
                Some(size) => size,
                None => TerminalSize::default(),
            },
        };
        let replay = TerminalReplay {
            terminal_id,
            process: self.process,
            first_seq: self.replay.first_seq(),
            last_seq: self.replay.last_seq(),
            size,
            events,
        };
        assert(replay@.events =~= self@.history(terminal_id).events);
        replay
    }

    fn announce(&mut self, output: &[u8])
        requires
            old(self).wf(),
        ensures
            final(self).wf(),
            final(self)@ == old(self)@.announced(output@),
    {
        if output.len() > 0 {
            let start: usize = output.len().saturating_sub(RECENT_OUTPUT_BYTES);
            let tail: &[u8] = slice_subrange(output, start, output.len());
            assert(tail@ =~= output@.skip(start as int));
            let text: String = read_lossy(tail);
            self.recent_output.append(text.as_str());
            keep_tail(&mut self.recent_output, RECENT_OUTPUT_BYTES);
        }
    }

    fn printed(&self, needle: &str) -> (printed: bool)
        ensures
            printed == self@.printed(needle@),
    {
        contains_bytes(self.recent_output.as_str().as_bytes(), needle.as_bytes())
            || self.replay.raw_contains(needle)
    }

    fn compact(&mut self)
        requires
            old(self).wf(),
        ensures
            final(self).wf(),
            final(self)@ == old(self)@.compacted(),
    {
        self.replay.trim_to(RETIRED_REPLAY_BYTES);
        keep_tail(&mut self.recent_output, RETIRED_RECENT_OUTPUT_BYTES);
    }
}

/// What a client receives first when it attaches to a terminal: the bounded
/// historical replay.
///
/// The replay and the live tail overlap: events delivered live that are
/// already in the replay carry `seq <= last_seq` and are skipped by the
/// client (strict monotonic sequences make the handoff seamless).
#[derive(Debug)]
pub struct TerminalAttachment {
    /// Historical events, oldest first (bounded by the replay ring budget).
    pub replay: Vec<TerminalStreamEvent>,
    /// Sequence of the newest event in the replay. Live events with
    /// `seq <= last_seq` are duplicates and must be skipped.
    pub last_seq: u64,
}

impl EntryView {
    /// The attachment holds the whole history of the terminal.
    pub open spec fn attaches(self, attachment: TerminalAttachment) -> bool {
        &&& attachment.last_seq == self.replay.events.last().seq
        &&& attachment.replay@.len() == self.replay.events.len()
        &&& forall|i: int|
            0 <= i < attachment.replay@.len() ==> (#[trigger] attachment.replay@[i])@
                == self.replay.events[i].stream_event()
    }

    /// The process is over and so is its history: no worker is left to ask.
    pub open spec fn is_over(self) -> bool {
        self.process is Exited && self.replay.events.last().kind is Exit
    }
}

/// How long a condition has been waited for.
#[derive(Debug, Clone, Copy, PartialEq, Eq)]
pub enum WaitProgress {
    /// There is time left.
    Waiting,
    /// The deadline has come while the condition was looked at.
    Expired,
    /// The wait for a change itself ended at the deadline.
    TimedOut,
}

/// What a waiter does next.
#[derive(Debug)]
pub enum WaitStep {
    /// The condition holds.
    Done(TerminalReplay),
    /// Wait for the next change.
    Wait,
    /// The condition will not hold, or not in time.
    Failed(TerminalError),
}

impl WaitStep {
    /// The wait ends with this history.
    pub open spec fn ends(self, history: ReplayView) -> bool {
        match self {
            WaitStep::Done(replay) => replay@ == history,
            _ => false,
        }
    }

    /// The wait fails for this reason.
    pub open spec fn fails(self, refusal: Refusal) -> bool {
        match self {
            WaitStep::Failed(error) => error@ == refusal,
            _ => false,
        }
    }
}

impl EntryView {
    /// What one look at whether a text was printed leads to.
    pub open spec fn text_look(
        self,
        terminal_id: TerminalId,
        needle: Seq<char>,
        timeout_millis: u64,
        progress: WaitProgress,
        step: WaitStep,
    ) -> bool {
        if progress == WaitProgress::TimedOut {
            step.fails(Refusal::Timeout(timeout_millis))
        } else if self.printed(needle) {
            step.ends(self.history(terminal_id))
        } else if self.process is Exited {
            step.fails(Refusal::ProcessExited(terminal_id))
        } else if progress == WaitProgress::Waiting {
            step is Wait
        } else {
            step.fails(Refusal::Timeout(timeout_millis))
        }
    }

    /// What one look at whether the process has exited leads to.
    pub open spec fn exit_look(
        self,
        terminal_id: TerminalId,
        timeout_millis: u64,
        progress: WaitProgress,
        step: WaitStep,
    ) -> bool {
        if progress == WaitProgress::TimedOut {
            step.fails(Refusal::Timeout(timeout_millis))
        } else if self.process is Exited {
            step.ends(self.history(terminal_id))
        } else if progress == WaitProgress::Waiting {
            step is Wait
        } else {
            step.fails(Refusal::Timeout(timeout_millis))
        }
    }
}

impl TerminalEntry {
    /// One look at whether a text was printed.
    pub(crate) fn look_for_text(
        &self,
        terminal_id: TerminalId,
        needle: &str,
        timeout_millis: u64,
        progress: WaitProgress,
    ) -> (step: WaitStep)
        requires
            self.wf(),
        ensures
            self@.text_look(terminal_id, needle@, timeout_millis, progress, step),
    {
        if matches!(progress, WaitProgress::TimedOut) {
            return WaitStep::Failed(TerminalError::Timeout(timeout_millis));
        }
        if self.printed(needle) {
            return WaitStep::Done(self.history(terminal_id));
        }
        if matches!(self.process, TerminalProcessState::Exited { .. }) {
            return WaitStep::Failed(TerminalError::ProcessExited(terminal_id));
        }
        match progress {
            WaitProgress::Waiting => WaitStep::Wait,
            _ => WaitStep::Failed(TerminalError::Timeout(timeout_millis)),
        }
    }

    /// One look at whether the process has exited.
    pub(crate) fn look_for_exit(
        &self,
        terminal_id: TerminalId,
        timeout_millis: u64,
        progress: WaitProgress,
    ) -> (step: WaitStep)
        requires
            self.wf(),
        ensures
            self@.exit_look(terminal_id, timeout_millis, progress, step),
    {
        if matches!(progress, WaitProgress::TimedOut) {
            return WaitStep::Failed(TerminalError::Timeout(timeout_millis));
        }
        if matches!(self.process, TerminalProcessState::Exited { .. }) {
            return WaitStep::Done(self.history(terminal_id));
        }
        match progress {
            WaitProgress::Waiting => WaitStep::Wait,
            _ => WaitStep::Failed(TerminalError::Timeout(timeout_millis)),
        }
    }
}

/// The terminals that are known.
#[derive(Debug)]
pub struct TerminalRegistry {
    entries: IdMap<TerminalEntry>,
}

impl View for TerminalRegistry {
    type V = Map<u64, EntryView>;

    closed spec fn view(&self) -> Map<u64, EntryView> {
        entries_view(self.entries@)
    }
}

spec fn entries_view(entries: Map<u64, TerminalEntry>) -> Map<u64, EntryView> {
    entries.map_values(|entry: TerminalEntry| entry@)
}

/// How many bytes the terminals keep, those of each added up.
pub open spec fn retained_by(entries: Seq<(u64, EntryView)>) -> int
    decreases entries.len(),
{
    if entries.len() == 0 {
        0
    } else {
        retained_by(entries.drop_last()) + entries.last().1.retained_bytes()
    }
}

impl Default for TerminalRegistry {
    fn default() -> (registry: Self)
        ensures
            registry.wf(),
            registry@ == Map::<u64, EntryView>::empty(),
    {
        Self::new()
    }
}

impl TerminalRegistry {
    pub closed spec fn wf(&self) -> bool {
        forall|id: u64| #[trigger] self.entries@.contains_key(id) ==> self.entries@[id].wf()
    }

    pub fn new() -> (registry: Self)
        ensures
            registry.wf(),
            registry@ == Map::<u64, EntryView>::empty(),
    {
        let registry = Self { entries: IdMap::new() };
        assert(registry@ =~= Map::empty());
        registry
    }

    /// Makes a terminal known. One that was known under the id before is
    /// replaced, and that is an error.
    pub fn register(&mut self, terminal_id: TerminalId, replay: ReplayRing) -> (result: Result<
        (),
        TerminalError,
    >)
        requires
            old(self).wf(),
            replay.wf(),
        ensures
            final(self).wf(),
            final(self)@ == old(self)@.insert(terminal_id.value, EntryView::started(replay@)),
            match result {
                Ok(_) => !old(self)@.contains_key(terminal_id.value),
                Err(error) => old(self)@.contains_key(terminal_id.value) && error@
                    == Refusal::SpawnFailed(taken_message(terminal_id)),
            },
    {
        let entry: TerminalEntry = TerminalEntry::started(replay);
        let earlier: Option<TerminalEntry> = self.entries.insert(terminal_id.value, entry);
        assert(self@ =~= old(self)@.insert(terminal_id.value, EntryView::started(replay@)));
        match earlier {
            Some(_) => Err(id_taken(terminal_id)),
            None => Ok(()),
        }
    }

    /// Forgets a terminal; returns what it showed last.
    pub fn remove(&mut self, terminal_id: TerminalId) -> (last: Option<TerminalEntry>)
        requires
            old(self).wf(),
        ensures
            final(self).wf(),
            final(self)@ == old(self)@.remove(terminal_id.value),
            match last {
                Some(entry) => old(self)@.contains_key(terminal_id.value) && entry.wf() && entry@
                    == old(self)@[terminal_id.value],
                None => !old(self)@.contains_key(terminal_id.value),
            },
    {
        let last: Option<TerminalEntry> = self.entries.remove(terminal_id.value);
        assert(self@ =~= old(self)@.remove(terminal_id.value));
        last
    }

    /// Process state without touching the replay history.
    pub fn process_state(&self, terminal_id: TerminalId) -> (state: Result<
        TerminalProcessState,
        TerminalError,
    >)
        ensures
            match state {
                Ok(process) => self@.contains_key(terminal_id.value) && process
                    == self@[terminal_id.value].process,
                Err(error) => !self@.contains_key(terminal_id.value) && error@
                    == Refusal::NotFound(terminal_id),
            },
    {
        match self.entries.get(terminal_id.value) {
            Some(entry) => Ok(entry.process),
            None => Err(TerminalError::NotFound(terminal_id)),
        }
    }

    /// The history of a terminal whose worker is gone. While there is a
    /// worker it is asked instead, so that it registers the subscriber before
    /// the history is taken and the client never misses an event.
    pub fn attach(&self, terminal_id: TerminalId) -> (attachment: Result<
        Option<TerminalAttachment>,
        TerminalError,
    >)
        requires
            self.wf(),
        ensures
            match attachment {
                Ok(attachment) => {
                    &&& self@.contains_key(terminal_id.value)
                    &&& match attachment {
                        Some(attachment) => {
                            &&& self@[terminal_id.value].is_over()
                            &&& self@[terminal_id.value].attaches(attachment)
                        },
                        None => !self@[terminal_id.value].is_over(),
                    }
                },
                Err(error) => !self@.contains_key(terminal_id.value) && error@
                    == Refusal::NotFound(terminal_id),
            },
    {
        match self.entries.get(terminal_id.value) {
            Some(entry) => {
                let exited: bool = matches!(entry.process, TerminalProcessState::Exited { .. });
                if exited && entry.replay.is_finished() {
                    Ok(
                        Some(
                            TerminalAttachment {
                                replay: entry.replay.to_stream(),
                                last_seq: entry.replay.last_seq(),
                            },
                        ),
                    )
                } else {
                    Ok(None)
                }
            },
            None => Err(TerminalError::NotFound(terminal_id)),
        }
    }

    /// What the worker of a terminal answers a client that attaches.
    pub fn attachment(&self, terminal_id: TerminalId) -> (attachment: Option<TerminalAttachment>)
        requires
            self.wf(),
        ensures
            match attachment {
                Some(attachment) => self@.contains_key(terminal_id.value)
                    && self@[terminal_id.value].attaches(attachment),
                None => !self@.contains_key(terminal_id.value),
            },
    {
        match self.entries.get(terminal_id.value) {
            Some(entry) => Some(
                TerminalAttachment {
                    replay: entry.replay.to_stream(),
                    last_seq: entry.replay.last_seq(),
                },
            ),
            None => None,
        }
    }

    /// The full bounded replay history in wire form, plus its bounds and the
    /// replay-start geometry.
    pub fn replay(&self, terminal_id: TerminalId) -> (replay: Result<TerminalReplay, TerminalError>)
        requires
            self.wf(),
        ensures
            match replay {
                Ok(replay) => self@.contains_key(terminal_id.value) && replay@
                    == self@[terminal_id.value].history(terminal_id),
                Err(error) => !self@.contains_key(terminal_id.value) && error@
                    == Refusal::NotFound(terminal_id),
            },
    {
        match self.entries.get(terminal_id.value) {
            Some(entry) => Ok(entry.history(terminal_id)),
            None => Err(TerminalError::NotFound(terminal_id)),
        }
    }

    /// One look at whether a text was printed.
    pub fn contains_text(
        &self,
        terminal_id: TerminalId,
        needle: &str,
        timeout_millis: u64,
        progress: WaitProgress,
    ) -> (step: WaitStep)
        requires
            self.wf(),
        ensures
            if self@.contains_key(terminal_id.value) {
                self@[terminal_id.value].text_look(
                    terminal_id,
                    needle@,
                    timeout_millis,
                    progress,
                    step,
                )
            } else {
                step.fails(Refusal::NotFound(terminal_id))
            },
    {
        match self.entries.get(terminal_id.value) {
            Some(entry) => entry.look_for_text(terminal_id, needle, timeout_millis, progress),
            None => WaitStep::Failed(TerminalError::NotFound(terminal_id)),
        }
    }

    /// One look at whether the process has exited.
    pub fn wait_process_exit(
        &self,
        terminal_id: TerminalId,
        timeout_millis: u64,
        progress: WaitProgress,
    ) -> (step: WaitStep)
        requires
            self.wf(),
        ensures
            if self@.contains_key(terminal_id.value) {
                self@[terminal_id.value].exit_look(terminal_id, timeout_millis, progress, step)
            } else {
                step.fails(Refusal::NotFound(terminal_id))
            },
    {
        match self.entries.get(terminal_id.value) {
            Some(entry) => entry.look_for_exit(terminal_id, timeout_millis, progress),
            None => WaitStep::Failed(TerminalError::NotFound(terminal_id)),
        }
    }

    /// Whether a command may be handed to the worker of a terminal.
    pub fn accepts_commands(&self, terminal_id: TerminalId) -> (accepted: Result<
        (),
        TerminalError,
    >)
        ensures
            match accepted {
                Ok(_) => self@.contains_key(terminal_id.value) && !(
                self@[terminal_id.value].process is Exited),
                Err(error) => if self@.contains_key(terminal_id.value) {
                    self@[terminal_id.value].process is Exited && error@ == Refusal::NotRunning(
                        terminal_id,
                    )
                } else {
                    error@ == Refusal::NotFound(terminal_id)
                },
            },
    {
        match self.entries.get(terminal_id.value) {
            Some(entry) => if matches!(entry.process, TerminalProcessState::Exited { .. }) {
                Err(TerminalError::NotRunning(terminal_id))
            } else {
                Ok(())
            },
            None => Err(TerminalError::NotFound(terminal_id)),
        }
    }

    /// Records a raw output batch: extends the recent-output tail. This is
    /// notification, not state: the terminal screen itself lives on the GUI.
    pub fn publish_output(&mut self, terminal_id: TerminalId, output: &[u8])
        requires
            old(self).wf(),
        ensures
            final(self).wf(),
            final(self)@ == if old(self)@.contains_key(terminal_id.value) {
                old(self)@.insert(
                    terminal_id.value,
                    old(self)@[terminal_id.value].announced(output@),
                )
            } else {
                old(self)@
            },
    {
        if let Some(entry) = self.entries.remove(terminal_id.value) {
            let mut entry: TerminalEntry = entry;
            entry.announce(output);
            let _ = self.entries.insert(terminal_id.value, entry);
            assert(self@ =~= old(self)@.insert(
                terminal_id.value,
                old(self)@[terminal_id.value].announced(output@),
            ));
        } else {
            assert(self@ =~= old(self)@);
        }
    }

    pub fn mark_exited(&mut self, terminal_id: TerminalId, code: Option<i32>)
        requires
            old(self).wf(),
        ensures
            final(self).wf(),
            final(self)@ == if old(self)@.contains_key(terminal_id.value) {
                old(self)@.insert(
                    terminal_id.value,
                    EntryView {
                        process: TerminalProcessState::Exited { code },
                        ..old(self)@[terminal_id.value]
                    },
                )
            } else {
                old(self)@
            },
    {
        if let Some(entry) = self.entries.remove(terminal_id.value) {
            let mut entry: TerminalEntry = entry;
            entry.process = TerminalProcessState::Exited { code };
            let _ = self.entries.insert(terminal_id.value, entry);
            assert(self@ =~= old(self)@.insert(
                terminal_id.value,
                EntryView {
                    process: TerminalProcessState::Exited { code },
                    ..old(self)@[terminal_id.value]
                },
            ));
        } else {
            assert(self@ =~= old(self)@);
        }
    }

    /// Bounds a retired terminal's retained history so closed tabs cannot
    /// pin full replays in memory until the retirement limit evicts them.
    pub fn compact_for_retirement(&mut self, terminal_id: TerminalId)
        requires
            old(self).wf(),
        ensures
            final(self).wf(),
            final(self)@ == if old(self)@.contains_key(terminal_id.value) {
                old(self)@.insert(terminal_id.value, old(self)@[terminal_id.value].compacted())
            } else {
                old(self)@
            },
    {
        if let Some(entry) = self.entries.remove(terminal_id.value) {
            let mut entry: TerminalEntry = entry;
            entry.compact();
            let _ = self.entries.insert(terminal_id.value, entry);
            assert(self@ =~= old(self)@.insert(
                terminal_id.value,
                old(self)@[terminal_id.value].compacted(),
            ));
        } else {
            assert(self@ =~= old(self)@);
        }
    }

    /// Sequence of the newest event of a terminal.
    pub fn last_seq(&self, terminal_id: TerminalId) -> (seq: Option<TerminalSeq>)
        requires
            self.wf(),
        ensures
            match seq {
                Some(seq) => {
                    &&& self@.contains_key(terminal_id.value)
                    &&& seq == self@[terminal_id.value].replay.events.last().seq
                    &&& seq + 1 == self@[terminal_id.value].replay.next_seq
                },
                None => !self@.contains_key(terminal_id.value),
            },
    {
        match self.entries.get(terminal_id.value) {
            Some(entry) => Some(entry.replay.last_seq()),
            None => None,
        }
    }

    pub fn terminal_count(&self) -> (count: usize)
        ensures
            count == self@.len(),
    {
        assert(self@.dom() =~= self.entries@.dom());
        self.entries.len()
    }

    /// Raw bytes pinned by replay rings and recent-output buffers.
    pub fn retained_replay_bytes(&self) -> (bytes: usize)
        requires
            self.wf(),
            retained_by(in_order(self@)) <= usize::MAX,
        ensures
            bytes == retained_by(in_order(self@)),
    {
        let walked: Vec<u64> = self.entries.ids();
        let count: usize = walked.len();
        let ghost entries = self.entries.entries();
        let ghost all = Seq::new(entries.len(), |i: int| (entries[i].0, entries[i].1@));
        proof {
            lemma_map_values(entries, |entry: TerminalEntry| entry@, all);
            lemma_in_order(all);
            assert(in_order(self@) == all);
            assert(all.take(all.len() as int) =~= all);
            assert(retained_by(all.take(0)) == 0);
        }
        let mut bytes: usize = 0;
        let mut i: usize = 0;
        while i < count
            invariant
                self.wf(),
                count == entries.len() == walked@.len(),
                forall|k: int| 0 <= k < count ==> (#[trigger] walked@[k]) == entries[k].0,
                map_of(entries) == self.entries@,
                ordered(entries),
                all == Seq::new(entries.len(), |i: int| (entries[i].0, entries[i].1@)),
                i <= all.len(),
                bytes == retained_by(all.take(i as int)),
                retained_by(all) <= usize::MAX,
            decreases count - i,
        {
            proof {
                lemma_entry(entries, i as int);
                assert(self.entries@.contains_key(entries[i as int].0));
                assert(all.take(i + 1).drop_last() =~= all.take(i as int));
                lemma_retained_by_prefix(all, i + 1);
                lemma_retained_nonnegative(all.take(i as int));
            }
            if let Some(entry) = self.entries.get(walked[i]) {
                bytes = bytes + (entry.replay.total_bytes() + entry.recent_output.as_str().as_bytes(
                ).len());
            }
            i = i + 1;
        }
        assert(all.take(i as int) =~= all);
        bytes
    }

    /// Appends one output event to the history of a terminal.
    pub fn push_output(
        &mut self,
        terminal_id: TerminalId,
        size: TerminalSize,
        bytes: Arc<[u8]>,
    ) -> (seq: Option<TerminalSeq>)
        requires
            old(self).wf(),
            old(self)@.contains_key(terminal_id.value) ==> old(
                self,
            )@[terminal_id.value].replay.next_seq < u64::MAX,
            bytes@.len() + MAX_REPLAY_BYTES + EVENT_OVERHEAD_BYTES <= usize::MAX,
        ensures
            final(self).wf(),
            ({
                let entry = old(self)@[terminal_id.value];
                if old(self)@.contains_key(terminal_id.value) {
                    &&& seq == Some(entry.replay.next_seq as u64)
                    &&& final(self)@ == old(self)@.insert(
                        terminal_id.value,
                        EntryView {
                            replay: entry.replay.appended(size, RetainedKind::Output(bytes@)),
                            ..entry
                        },
                    )
                } else {
                    seq is None && final(self)@ == old(self)@
                }
            }),
    {
        match self.entries.remove(terminal_id.value) {
            Some(entry) => {
                let mut entry: TerminalEntry = entry;
                let ghost before = entry@;
                let seq: TerminalSeq = entry.replay.push_output(size, bytes);
                let _ = self.entries.insert(terminal_id.value, entry);
                assert(self@ =~= old(self)@.insert(
                    terminal_id.value,
                    EntryView {
                        replay: before.replay.appended(size, RetainedKind::Output(bytes@)),
                        ..before
                    },
                ));
                Some(seq)
            },
            None => {
                assert(self@ =~= old(self)@);
                None
            },
        }
    }

    /// Appends one resize event to the history of a terminal.
    pub fn push_resize(&mut self, terminal_id: TerminalId, size: TerminalSize) -> (seq: Option<
        TerminalSeq,
    >)
        requires
            old(self).wf(),
            old(self)@.contains_key(terminal_id.value) ==> old(
                self,
            )@[terminal_id.value].replay.next_seq < u64::MAX,
        ensures
            final(self).wf(),
            ({
                let entry = old(self)@[terminal_id.value];
                if old(self)@.contains_key(terminal_id.value) {
                    &&& seq == Some(entry.replay.next_seq as u64)
                    &&& final(self)@ == old(self)@.insert(
                        terminal_id.value,
                        EntryView {
                            replay: entry.replay.appended(size, RetainedKind::Resize),
                            ..entry
                        },
                    )
                } else {
                    seq is None && final(self)@ == old(self)@
                }
            }),
    {
        match self.entries.remove(terminal_id.value) {
            Some(entry) => {
                let mut entry: TerminalEntry = entry;
                let ghost before = entry@;
                let seq: TerminalSeq = entry.replay.push_resize(size);
                let _ = self.entries.insert(terminal_id.value, entry);
                assert(self@ =~= old(self)@.insert(
                    terminal_id.value,
                    EntryView {
                        replay: before.replay.appended(size, RetainedKind::Resize),
                        ..before
                    },
                ));
                Some(seq)
            },
            None => {
                assert(self@ =~= old(self)@);
                None
            },
        }
    }

    /// Ends the history of a terminal with its exit.
    pub fn finish(&mut self, terminal_id: TerminalId, code: Option<i32>) -> (seq: Option<
        TerminalSeq,
    >)
        requires
            old(self).wf(),
            old(self)@.contains_key(terminal_id.value) ==> old(
                self,
            )@[terminal_id.value].replay.next_seq < u64::MAX,
        ensures
            final(self).wf(),
            ({
                let entry = old(self)@[terminal_id.value];
                if old(self)@.contains_key(terminal_id.value) {
                    &&& seq == Some(entry.replay.next_seq as u64)
                    &&& final(self)@ == old(self)@.insert(
                        terminal_id.value,
                        EntryView {
                            replay: entry.replay.appended(
                                entry.replay.events.last().size,
                                RetainedKind::Exit(code),
                            ),
                            ..entry
                        },
                    )
                } else {
                    seq is None && final(self)@ == old(self)@
                }
            }),
    {
        match self.entries.remove(terminal_id.value) {
            Some(entry) => {
                let mut entry: TerminalEntry = entry;
                let ghost before = entry@;
                let seq: TerminalSeq = entry.replay.finish(code);
                let _ = self.entries.insert(terminal_id.value, entry);
                assert(self@ =~= old(self)@.insert(
                    terminal_id.value,
                    EntryView {
                        replay: before.replay.appended(
                            before.replay.events.last().size,
                            RetainedKind::Exit(code),
                        ),
                        ..before
                    },
                ));
                Some(seq)
            },
            None => {
                assert(self@ =~= old(self)@);
                None
            },
        }
    }
}

proof fn lemma_retained_nonnegative(entries: Seq<(u64, EntryView)>)
    ensures
        retained_by(entries) >= 0,
    decreases entries.len(),
{
    if entries.len() > 0 {
        lemma_retained_nonnegative(entries.drop_last());
        lemma_charged_nonnegative(entries.last().1.replay.events);
    }
}

proof fn lemma_retained_by_prefix(entries: Seq<(u64, EntryView)>, end: int)
    requires
        0 <= end <= entries.len(),
    ensures
        retained_by(entries.take(end)) <= retained_by(entries),
    decreases entries.len(),
{
    if end == entries.len() {
        assert(entries.take(end) =~= entries);
    } else {
        assert(entries.drop_last().take(end) =~= entries.take(end));
        lemma_retained_by_prefix(entries.drop_last(), end);
        lemma_charged_nonnegative(entries.last().1.replay.events);
    }
}

/// A retired terminal keeps a bounded history, whatever it had before.
pub proof fn a_retired_terminal_is_bounded(entry: EntryView)
    requires
        entry.replay.valid(),
    ensures
        entry.compacted().replay.valid(),
        entry.compacted().retained_bytes() <= RETIRED_REPLAY_BYTES + RETIRED_RECENT_OUTPUT_BYTES,
        entry.compacted().replay.events.last().seq == entry.replay.events.last().seq,
{
    trimming_keeps_the_ring_valid(entry.replay, RETIRED_REPLAY_BYTES as int);
    lemma_tail_fits(entry.recent_output, RETIRED_RECENT_OUTPUT_BYTES as int);
}

/// The output that is kept for searches is bounded, however much is printed.
pub proof fn recent_output_is_bounded(entry: EntryView, output: Seq<u8>)
    requires
        output.len() > 0,
    ensures
        encode_utf8(entry.announced(output).recent_output).len() <= RECENT_OUTPUT_BYTES,
{
    let tail = output.skip(max_of(output.len() - RECENT_OUTPUT_BYTES, 0));
    lemma_tail_fits(entry.recent_output + lossy_text(tail), RECENT_OUTPUT_BYTES as int);
}

/// An attachment has no gaps: its events are numbered one after the other, up
/// to the last sequence that it tells.
pub proof fn an_attachment_has_no_gaps(entry: EntryView, attachment: TerminalAttachment)
    requires
        entry.replay.valid(),
        entry.attaches(attachment),
    ensures
        numbered_in_a_row(stream_events(attachment.replay@)),
        stream_events(attachment.replay@).last().seq() == attachment.last_seq,
{
    let events = stream_events(attachment.replay@);
    assert forall|i: int| 0 <= i < events.len() implies (#[trigger] events[i]).seq()
        == entry.replay.events[i].seq by {
        assert(events[i] == attachment.replay@[i]@);
    }
}

/// What follows an attachment continues it: the next event of the terminal
/// has the sequence after the last one that the attachment holds.
pub proof fn live_events_continue_the_attachment(
    entry: EntryView,
    attachment: TerminalAttachment,
    size: TerminalSize,
    kind: RetainedKind,
)
    requires
        entry.replay.valid(),
        entry.replay.next_seq < u64::MAX,
        entry.attaches(attachment),
    ensures
        entry.replay.appended(size, kind).events.last().seq == attachment.last_seq + 1,
{
    let event = RetainedEvent { seq: entry.replay.next_seq as u64, size, kind };
    eviction_keeps_the_newest(entry.replay.events.push(event), entry.replay.budget);
}

/// What is sent of a terminal is its history: every retained event in its
/// order, from the size and the number of the oldest one up to the number of the
/// newest one.
pub proof fn the_history_is_sent_in_full(entry: EntryView, id: TerminalId, at: int)
    requires
        entry.replay.valid(),
        0 <= at < entry.replay.events.len(),
    ensures
        ({
            let sent = entry.history(id);
            let oldest = entry.replay.events[0];
            &&& sent.terminal_id == id
            &&& sent.process == entry.process
            &&& sent.events.len() == entry.replay.events.len()
            &&& sent.events[at] == wire_of(entry.replay.events[at].stream_event())
            &&& sent.first_seq == Some(oldest.seq)
            &&& sent.size == oldest.size
            &&& sent.last_seq == entry.replay.next_seq - 1
        }),
{
}

/// Output that was announced is found at the end of the output, all of it
/// where it fits behind what was there.
pub proof fn announced_output_is_kept(entry: EntryView, output: Seq<u8>)
    requires
        output.len() <= RECENT_OUTPUT_BYTES,
        encode_utf8(entry.recent_output + lossy_text(output)).len() <= RECENT_OUTPUT_BYTES,
    ensures
        output.len() > 0 ==> entry.announced(output).recent_output == entry.recent_output
            + lossy_text(output),
        output.len() == 0 ==> entry.announced(output) == entry,
        entry.announced(output).replay == entry.replay,
        entry.announced(output).process == entry.process,
{
    assert(output.skip(0) =~= output);
}

/// A text counts as printed exactly where the end of the output or a retained
/// event holds it, or where there is nothing to look for.
pub proof fn a_text_is_printed_where_it_is_found(
    entry: EntryView,
    needle: Seq<char>,
    event: int,
    at: int,
)
    requires
        0 <= event < entry.replay.events.len(),
        0 <= at,
    ensures
        ({
            let bytes = encode_utf8(needle);
            let output = entry.replay.events[event].kind.output();
            let recent = encode_utf8(entry.recent_output);
            &&& at + bytes.len() <= recent.len() && recent.subrange(at, at + bytes.len()) == bytes
                ==> entry.printed(needle)
            &&& entry.replay.events[event].kind is Output && at + bytes.len() <= output.len()
                && output.subrange(at, at + bytes.len()) == bytes ==> entry.printed(needle)
            &&& needle.len() == 0 ==> entry.printed(needle)
        }),
{
    let bytes = encode_utf8(needle);
    let output = entry.replay.events[event].kind.output();
    if at + bytes.len() <= output.len() && output.subrange(at, at + bytes.len()) == bytes {
        assert(has_run(output, bytes));
    }
}

/// A waiter is told what it waits for as soon as it is so, waits on while there
/// is time, and fails with the time it waited once there is none; a text that a
/// process can print no longer fails at once.
pub proof fn a_waiter_is_told(
    entry: EntryView,
    id: TerminalId,
    needle: Seq<char>,
    millis: u64,
    step: WaitStep,
)
    ensures
        entry.text_look(id, needle, millis, WaitProgress::Waiting, step) ==> {
            &&& (step is Done) == entry.printed(needle)
            &&& step is Wait == (!entry.printed(needle) && !(entry.process is Exited))
            &&& step matches WaitStep::Done(replay) ==> replay@ == entry.history(id)
            &&& step matches WaitStep::Failed(error) ==> error@ == Refusal::ProcessExited(id)
        },
        entry.text_look(id, needle, millis, WaitProgress::Expired, step) ==> !(step is Wait) && (
        step is Done) == entry.printed(needle),
        entry.text_look(id, needle, millis, WaitProgress::TimedOut, step) ==> (step matches
            WaitStep::Failed(error) && error@ == Refusal::Timeout(millis)),
        entry.exit_look(id, millis, WaitProgress::Waiting, step) ==> (step is Done) == (
        entry.process is Exited) && (step is Wait) == !(entry.process is Exited),
        entry.exit_look(id, millis, WaitProgress::Expired, step) ==> (step is Done) == (
        entry.process is Exited) && !(step is Wait),
        entry.exit_look(id, millis, WaitProgress::TimedOut, step) ==> (step matches
            WaitStep::Failed(error) && error@ == Refusal::Timeout(millis)),
{
}

/// An error says which terminal it is about and what is wrong with it.
pub proof fn errors_say_what_is_wrong(id: TerminalId, millis: u64, text: Seq<char>)
    ensures
        ({
            let number = decimal_text(id.value as nat);
            &&& Refusal::NotFound(id).message() == "terminal "@ + number + " was not found"@
            &&& Refusal::NotRunning(id).message() == "terminal "@ + number + " is not running"@
            &&& Refusal::SpawnFailed(text).message() == "terminal spawn failed: "@ + text
            &&& Refusal::WorkerClosed(id).message() == "terminal worker channel closed for "@
                + number
            &&& Refusal::Timeout(millis).message() == "terminal wait timed out after "@
                + decimal_text(millis as nat) + "ms"@
            &&& Refusal::ProcessExited(id).message() == "terminal "@ + number
                + " exited before the requested condition"@
            &&& taken_message(id) == "terminal ID "@ + number + " already exists"@
        }),
{
}

/// A terminal begins running, with its history and without output.
pub proof fn a_terminal_begins_running(replay: RingView)
    ensures
        EntryView::started(replay).process is Running,
        EntryView::started(replay).replay == replay,
        EntryView::started(replay).recent_output.len() == 0,
{
}

/// What terminals keep is charged for all of them: the history and the output of
/// each.
pub proof fn every_terminal_is_charged(entries: Seq<(u64, EntryView)>, id: u64, entry: EntryView)
    ensures
        retained_by(Seq::empty()) == 0,
        retained_by(entries.push((id, entry))) == retained_by(entries) + charged(
            entry.replay.events,
        ) + encode_utf8(entry.recent_output).len(),
{
    assert(entries.push((id, entry)).drop_last() =~= entries);
}

/// A terminal that is closed keeps its state, and of its history and its output
/// what fits smaller bounds.
pub proof fn a_closed_terminal_keeps_what_fits(entry: EntryView)
    ensures
        entry.compacted().process == entry.process,
        entry.compacted().replay == entry.replay.trimmed_to(1048576),
        entry.compacted().recent_output == tail_within(entry.recent_output, 8192),
        entry.is_over() == (entry.process is Exited && entry.replay.events.last().kind is Exit),
{
}

/// A text that counts as printed is found: at the end of the output, or in the
/// output that one of the retained events has.
pub proof fn a_printed_text_is_found(entry: EntryView, needle: Seq<char>)
    requires
        needle.len() > 0,
        entry.printed(needle),
    ensures
        ({
            let bytes = encode_utf8(needle);
            let recent = encode_utf8(entry.recent_output);
            ||| exists|at: int|
                0 <= at && at + bytes.len() <= recent.len() && #[trigger] recent.subrange(
                    at,
                    at + bytes.len(),
                ) == bytes
            ||| exists|event: int, at: int|
                0 <= event < entry.replay.events.len() && entry.replay.events[event].kind is Output
                    && 0 <= at && at + bytes.len() <= entry.replay.events[event].kind.output().len()
                    && #[trigger] entry.replay.events[event].kind.output().subrange(
                    at,
                    at + bytes.len(),
                ) == bytes
        }),
{
    let bytes = encode_utf8(needle);
    let recent = encode_utf8(entry.recent_output);
    if has_run(recent, bytes) {
        let at = choose|at: int|
            0 <= at && at + bytes.len() <= recent.len() && #[trigger] recent.subrange(
                at,
                at + bytes.len(),
            ) == bytes;
        assert(recent.subrange(at, at + bytes.len()) == bytes);
    } else {
        let event = choose|event: int|
            0 <= event < entry.replay.events.len() && (
            #[trigger] entry.replay.events[event]).kind is Output && has_run(
                entry.replay.events[event].kind.output(),
                bytes,
            );
        let output = entry.replay.events[event].kind.output();
        let at = choose|at: int|
            0 <= at && at + bytes.len() <= output.len() && #[trigger] output.subrange(
                at,
                at + bytes.len(),
            ) == bytes;
        assert(entry.replay.events[event].kind.output().subrange(at, at + bytes.len()) == bytes);
    }
}

} // verus!

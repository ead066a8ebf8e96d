//! Starting, addressing and retiring terminals.
use std::collections::VecDeque;

use vstd::prelude::*;
use vstd::slice::*;
use vstd::string::*;
use vstd::utf8::*;

use super::limits::TerminalLimits;
use super::registry::{
    id_taken, retained_by, taken_message, EntryView, Refusal, TerminalAttachment, TerminalError,
    TerminalRegistry, WaitProgress, WaitStep,
};
use super::replay::{ReplayRing, RetainedEvent, RetainedKind, RingView};
use super::snapshot::TerminalSize;
use super::waits::{parted, WaitView, Waits};
use crate::idmap::{in_order, lemma_in_order, IdMap};
use crate::ids::TerminalId;
use crate::paths::{file_name, final_name};
use crate::text::{copy_texts, drop_leading, texts, without_leading};

verus! {

/// Retired terminals keep a compact final replay for waiters that race
/// with pane auto-close. The window stays small so closed tabs cannot pin
/// memory long after they were closed.
pub const MAX_RETIRED_TERMINALS: usize = 16;

/// A command to the worker of a terminal.
#[derive(Debug)]
pub enum TerminalWorkerCommand {
    SendText(Vec<u8>),
    SendBytes(Vec<u8>),
    Resize(TerminalSize),
    Attach,
    Shutdown,
}

/// The name that a process is shown by until its real one is known.
pub open spec fn shown_name(name: Option<Seq<char>>) -> Seq<char> {
    without_leading(
        match name {
            Some(name) => if name.len() > 0 {
                name
            } else {
                "shell"@
            },
            None => "shell"@,
        },
        '-',
    )
}

pub fn process_name_from_program(program: &str) -> (name: String)
    ensures
        name@ == shown_name(final_name(program@)),
{
    let name: String = match file_name(program) {
        Some(name) => if name.as_str().is_empty() {
            "shell".to_owned()
        } else {
            name
        },
        None => "shell".to_owned(),
    };
    drop_leading(name.as_str(), '-')
}

/// How a terminal is to be started, and what is shown of its process until
/// more is known.
#[derive(Debug)]
pub struct SpawnPlan {
    pub program: String,
    pub args: Vec<String>,
    pub working_directory: Option<String>,
    pub window_columns: u16,
    pub window_lines: u16,
    pub fallback_process_name: String,
    pub fallback_cwd: String,
    pub fallback_cmdline: Vec<String>,
}

pub open spec fn optional_text(string: Option<String>) -> Option<Seq<char>> {
    match string {
        Some(string) => Some(string@),
        None => None,
    }
}

impl SpawnPlan {
    /// The plan starts the program with the arguments and the geometry, in
    /// the working directory where there is one.
    pub open spec fn starts(
        self,
        program: Seq<char>,
        args: Seq<Seq<char>>,
        size: TerminalSize,
        working_directory: Option<Seq<char>>,
        current_directory: Option<Seq<char>>,
    ) -> bool {
        &&& self.program@ == program
        &&& texts(self.args@) == args
        &&& optional_text(self.working_directory) == working_directory
        &&& self.window_columns == size.columns as u16
        &&& self.window_lines == size.lines as u16
        &&& self.fallback_process_name@ == shown_name(final_name(program))
        &&& self.fallback_cwd@ == match (working_directory, current_directory) {
            (Some(directory), _) => directory,
            (None, Some(directory)) => directory,
            (None, None) => "."@,
        }
        &&& texts(self.fallback_cmdline@) == seq![program] + args
    }
}

/// The terminals without one of them.
pub open spec fn without(terminals: Seq<TerminalId>, id: TerminalId) -> Seq<TerminalId>
    decreases terminals.len(),
{
    if terminals.len() == 0 {
        terminals
    } else if terminals.last() == id {
        without(terminals.drop_last(), id)
    } else {
        without(terminals.drop_last(), id).push(terminals.last())
    }
}

/// Everything that a manager keeps track of.
#[verifier::ext_equal]
pub struct ManagerView {
    pub terminals: Map<u64, EntryView>,
    pub limits: TerminalLimits,
    /// The terminals that have a worker.
    pub workers: Set<u64>,
    /// The terminals that were closed, oldest first.
    pub retired: Seq<TerminalId>,
    /// Those who wait for something of a terminal.
    pub waits: Map<u64, WaitView>,
}

impl ManagerView {
    pub open spec fn started_with(limits: TerminalLimits) -> ManagerView {
        ManagerView {
            terminals: Map::empty(),
            limits: limits.in_range(),
            workers: Set::empty(),
            retired: Seq::empty(),
            waits: Map::empty(),
        }
    }

    /// The history that a terminal of a geometry starts with.
    pub open spec fn first_history(self, size: TerminalSize) -> RingView {
        RingView {
            events: seq![RetainedEvent { seq: 1, size, kind: RetainedKind::Resize }],
            next_seq: 2,
            budget: self.limits.replay_history_bytes as int,
        }
    }

    /// A terminal is known no longer; what it showed last is kept for those who
    /// wait for it.
    pub open spec fn parted(self, id: TerminalId) -> ManagerView {
        ManagerView {
            terminals: self.terminals.remove(id.value),
            waits: if self.terminals.contains_key(id.value) {
                parted(self.waits, id, self.terminals[id.value])
            } else {
                self.waits
            },
            ..self
        }
    }

    /// Nothing is left of a terminal but for those who wait for it.
    pub open spec fn removed(self, id: TerminalId) -> ManagerView {
        ManagerView { retired: without(self.retired, id), ..self.parted(id) }
    }

    /// What is left of closed terminals when no more than a number are kept.
    pub open spec fn forgotten(self, most: nat) -> ManagerView
        decreases self.retired.len(),
    {
        if self.retired.len() <= most {
            self
        } else {
            ManagerView {
                retired: self.retired.drop_first(),
                ..self.parted(self.retired[0])
            }.forgotten(most)
        }
    }

    /// The terminal that someone waits for, as they see it: one that is gone
    /// as it was last.
    pub open spec fn seen(self, number: u64) -> Option<EntryView> {
        let wait = self.waits[number];
        if wait.left is Some {
            wait.left
        } else if self.terminals.contains_key(wait.terminal_id.value) {
            Some(self.terminals[wait.terminal_id.value])
        } else {
            None
        }
    }

    /// The workers of some terminals are stopped, and nothing is left of them.
    pub open spec fn without_all(self, ids: Seq<TerminalId>) -> ManagerView
        decreases ids.len(),
    {
        if ids.len() == 0 {
            self
        } else {
            let earlier = self.without_all(ids.drop_last());
            ManagerView {
                workers: earlier.workers.remove(ids.last().value),
                ..earlier.removed(ids.last())
            }
        }
    }

    /// A terminal is closed: a compact history of it is kept, and of the
    /// closed ones only the newest.
    pub open spec fn with_retired(self, id: TerminalId) -> ManagerView {
        let compacted = if self.terminals.contains_key(id.value) {
            self.terminals.insert(id.value, self.terminals[id.value].compacted())
        } else {
            self.terminals
        };
        ManagerView {
            terminals: compacted,
            retired: without(self.retired, id).push(id),
            ..self
        }.forgotten(MAX_RETIRED_TERMINALS as nat)
    }
}

/// The terminals of a server.
#[derive(Debug)]
pub struct TerminalManager {
    registry: TerminalRegistry,
    limits: TerminalLimits,
    workers: IdMap<()>,
    retired: VecDeque<TerminalId>,
    waits: Waits,
}

impl View for TerminalManager {
    type V = ManagerView;

    closed spec fn view(&self) -> ManagerView {
        ManagerView {
            terminals: self.registry@,
            limits: self.limits,
            workers: self.workers@.dom(),
            retired: self.retired@,
            waits: self.waits@,
        }
    }
}

impl Default for TerminalManager {
    fn default() -> (manager: Self)
        ensures
            manager.wf(),
            manager@ == ManagerView::started_with(TerminalLimits::standard()),
    {
        Self::new()
    }
}

impl TerminalManager {
    pub closed spec fn wf(&self) -> bool {
        &&& self.registry.wf()
        &&& self.waits.wf()
        &&& self.limits == self.limits.in_range()
        &&& self.retired@.len() <= MAX_RETIRED_TERMINALS
    }

    pub fn new() -> (manager: Self)
        ensures
            manager.wf(),
            manager@ == ManagerView::started_with(TerminalLimits::standard()),
    {
        Self::new_with_limits(TerminalLimits::default())
    }

    pub fn new_with_scrollback(scrollback_lines: usize) -> (manager: Self)
        ensures
            manager.wf(),
            manager@ == ManagerView::started_with(
                TerminalLimits { scrollback_lines, ..TerminalLimits::standard() },
            ),
    {
        let mut limits: TerminalLimits = TerminalLimits::default();
        limits.scrollback_lines = scrollback_lines;
        Self::new_with_limits(limits)
    }

    pub fn new_with_limits(limits: TerminalLimits) -> (manager: Self)
        ensures
            manager.wf(),
            manager@ == ManagerView::started_with(limits),
    {
        let manager = Self {
            registry: TerminalRegistry::new(),
            limits: limits.normalized(),
            workers: IdMap::new(),
            retired: VecDeque::new(),
            waits: Waits::new(),
        };
        assert(manager@ =~= ManagerView::started_with(limits));
        manager
    }

    /// The terminals that are known.
    pub fn registry(&self) -> (registry: &TerminalRegistry)
        requires
            self.wf(),
        ensures
            registry.wf(),
            registry@ == self@.terminals,
    {
        &self.registry
    }

    /// The terminals that are known, to be written to.
    pub fn registry_mut(&mut self) -> (registry: &mut TerminalRegistry)
        requires
            old(self).wf(),
        ensures
            registry.wf(),
            registry@ == old(self)@.terminals,
            final(registry).wf() ==> final(self).wf(),
            final(self)@ == (ManagerView { terminals: final(registry)@, ..old(self)@ }),
    {
        &mut self.registry
    }

    pub fn spawn(
        &self,
        terminal_id: TerminalId,
        program: String,
        args: Vec<String>,
        size: TerminalSize,
        current_directory: Option<String>,
    ) -> (plan: Result<SpawnPlan, TerminalError>)
        ensures
            match plan {
                Ok(plan) => program@.len() > 0 && !self@.workers.contains(terminal_id.value)
                    && plan.starts(
                    program@,
                    texts(args@),
                    size,
                    None,
                    optional_text(current_directory),
                ),
                Err(error) => error@ == if program@.len() == 0 {
                    Refusal::SpawnFailed("terminal program must not be empty"@)
                } else {
                    Refusal::SpawnFailed(taken_message(terminal_id))
                } && (program@.len() == 0 || self@.workers.contains(terminal_id.value)),
            },
    {
        self.spawn_with_working_directory(
            terminal_id,
            program,
            args,
            size,
            None,
            current_directory,
        )
    }

    /// Decides whether a terminal may be started and how. The working
    /// directory is one that exists.
    pub fn spawn_with_working_directory(
        &self,
        terminal_id: TerminalId,
        program: String,
        args: Vec<String>,
        size: TerminalSize,
        working_directory: Option<String>,
        current_directory: Option<String>,
    ) -> (plan: Result<SpawnPlan, TerminalError>)
        ensures
            match plan {
                Ok(plan) => program@.len() > 0 && !self@.workers.contains(terminal_id.value)
                    && plan.starts(
                    program@,
                    texts(args@),
                    size,
                    optional_text(working_directory),
                    optional_text(current_directory),
                ),
                Err(error) => error@ == if program@.len() == 0 {
                    Refusal::SpawnFailed("terminal program must not be empty"@)
                } else {
                    Refusal::SpawnFailed(taken_message(terminal_id))
                } && (program@.len() == 0 || self@.workers.contains(terminal_id.value)),
            },
    {
        if program.as_str().is_empty() {
            return Err(
                TerminalError::SpawnFailed("terminal program must not be empty".to_owned()),
            );
        }
        if self.workers.contains(terminal_id.value) {
            return Err(id_taken(terminal_id));
        }
        let fallback_cwd: String = match &working_directory {
            Some(directory) => directory.as_str().to_owned(),
            None => match current_directory {
                Some(directory) => directory,
                None => ".".to_owned(),
            },
        };
        let fallback_process_name: String = process_name_from_program(program.as_str());
        let mut fallback_cmdline: Vec<String> = Vec::new();
        fallback_cmdline.push(program.as_str().to_owned());
        let mut copies: Vec<String> = copy_texts(&args);
        fallback_cmdline.append(&mut copies);
        assert(texts(fallback_cmdline@) =~= seq![program@] + texts(args@));
        Ok(
            SpawnPlan {
                program,
                args,
                working_directory,
                window_columns: size.columns as u16,
                window_lines: size.lines as u16,
                fallback_process_name,
                fallback_cwd,
                fallback_cmdline,
            },
        )
    }

    /// Makes a terminal known whose pseudo-terminal was opened. The replay
    /// ring exists from then on: its first event (sequence 1) is the initial
    /// geometry anchor.
    pub fn opened(&mut self, terminal_id: TerminalId, size: TerminalSize) -> (result: Result<
        (),
        TerminalError,
    >)
        requires
            old(self).wf(),
        ensures
            final(self).wf(),
            final(self)@ == (ManagerView {
                terminals: old(self)@.terminals.insert(
                    terminal_id.value,
                    EntryView::started(old(self)@.first_history(size)),
                ),
                ..old(self)@.parted(terminal_id)
            }),
            match result {
                Ok(_) => !old(self)@.terminals.contains_key(terminal_id.value),
                Err(error) => old(self)@.terminals.contains_key(terminal_id.value) && error@
                    == Refusal::SpawnFailed(taken_message(terminal_id)),
            },
    {
        let replay: ReplayRing = ReplayRing::new(size, self.limits.replay_history_bytes);
        assert(replay@ =~= self@.first_history(size));
        let taken: bool = self.part(terminal_id);
        let _ = self.registry.register(terminal_id, replay);
        assert(self@.terminals =~= old(self)@.terminals.insert(
            terminal_id.value,
            EntryView::started(old(self)@.first_history(size)),
        ));
        if taken {
            Err(id_taken(terminal_id))
        } else {
            Ok(())
        }
    }

    /// The worker of an opened terminal runs.
    pub fn started(&mut self, terminal_id: TerminalId)
        requires
            old(self).wf(),
        ensures
            final(self).wf(),
            final(self)@ == (ManagerView {
                workers: old(self)@.workers.insert(terminal_id.value),
                ..old(self)@
            }),
    {
        let _ = self.workers.insert(terminal_id.value, ());
        assert(self@.workers =~= old(self)@.workers.insert(terminal_id.value));
    }

    /// The worker of an opened terminal could not be started.
    pub fn start_failed(&mut self, terminal_id: TerminalId, reason: String) -> (error:
        TerminalError)
        requires
            old(self).wf(),
        ensures
            final(self).wf(),
            final(self)@ == old(self)@.parted(terminal_id),
            error@ == Refusal::SpawnFailed(reason@),
    {
        let _ = self.part(terminal_id);
        TerminalError::SpawnFailed(reason)
    }

    /// The command that sends text to a terminal.
    pub fn send_text(&self, terminal_id: TerminalId, text: String) -> (command: Result<
        TerminalWorkerCommand,
        TerminalError,
    >)
        requires
            self.wf(),
        ensures
            accepted(self@, terminal_id, command),
            match command {
                Ok(TerminalWorkerCommand::SendText(bytes)) => bytes@ == encode_utf8(text@),
                Ok(_) => false,
                Err(_) => true,
            },
    {
        match self.registry.accepts_commands(terminal_id) {
            Ok(_) => Ok(TerminalWorkerCommand::SendText(slice_to_vec(text.as_str().as_bytes()))),
            Err(error) => Err(error),
        }
    }

    /// The command that sends bytes to a terminal.
    pub fn send_bytes(&self, terminal_id: TerminalId, bytes: Vec<u8>) -> (command: Result<
        TerminalWorkerCommand,
        TerminalError,
    >)
        requires
            self.wf(),
        ensures
            accepted(self@, terminal_id, command),
            command is Ok ==> command->Ok_0 == TerminalWorkerCommand::SendBytes(bytes),
    {
        match self.registry.accepts_commands(terminal_id) {
            Ok(_) => Ok(TerminalWorkerCommand::SendBytes(bytes)),
            Err(error) => Err(error),
        }
    }

    /// The command that resizes a terminal.
    pub fn resize(&self, terminal_id: TerminalId, size: TerminalSize) -> (command: Result<
        TerminalWorkerCommand,
        TerminalError,
    >)
        requires
            self.wf(),
        ensures
            accepted(self@, terminal_id, command),
            command is Ok ==> command->Ok_0 == TerminalWorkerCommand::Resize(size),
    {
        match self.registry.accepts_commands(terminal_id) {
            Ok(_) => Ok(TerminalWorkerCommand::Resize(size)),
            Err(error) => Err(error),
        }
    }

    /// The history of a terminal whose worker is gone; `None` where the
    /// worker is to be asked.
    pub fn attach(&self, terminal_id: TerminalId) -> (attachment: Result<
        Option<TerminalAttachment>,
        TerminalError,
    >)
        requires
            self.wf(),
        ensures
            ({
                let entry = self@.terminals[terminal_id.value];
                match attachment {
                    Ok(attachment) => {
                        &&& self@.terminals.contains_key(terminal_id.value)
                        &&& match attachment {
                            Some(attachment) => entry.is_over() && entry.attaches(attachment),
                            None => !entry.is_over(),
                        }
                    },
                    Err(error) => !self@.terminals.contains_key(terminal_id.value) && error@
                        == Refusal::NotFound(terminal_id),
                }
            }),
    {
        self.registry.attach(terminal_id)
    }

    /// Gives up the worker of a terminal; returns whether it had one, which
    /// is then to be shut down.
    pub fn stop_worker(&mut self, terminal_id: TerminalId) -> (stops: bool)
        requires
            old(self).wf(),
        ensures
            final(self).wf(),
            stops == old(self)@.workers.contains(terminal_id.value),
            final(self)@ == (ManagerView {
                workers: old(self)@.workers.remove(terminal_id.value),
                ..old(self)@
            }),
    {
        let worker: Option<()> = self.workers.remove(terminal_id.value);
        assert(self@.workers =~= old(self)@.workers.remove(terminal_id.value));
        worker.is_some()
    }

    /// Forgets a terminal whose worker was stopped.
    pub fn remove(&mut self, terminal_id: TerminalId)
        requires
            old(self).wf(),
        ensures
            final(self).wf(),
            final(self)@ == old(self)@.removed(terminal_id),
    {
        self.forget_retired(terminal_id);
        let _ = self.part(terminal_id);
    }

    /// Forgets a terminal but for those who wait for it; returns whether it
    /// was known.
    fn part(&mut self, terminal_id: TerminalId) -> (known: bool)
        requires
            old(self).registry.wf(),
            old(self).waits.wf(),
        ensures
            final(self).registry.wf(),
            final(self).waits.wf(),
            final(self)@ == old(self)@.parted(terminal_id),
            final(self).limits == old(self).limits,
            final(self).retired == old(self).retired,
            known == old(self)@.terminals.contains_key(terminal_id.value),
    {
        match self.registry.remove(terminal_id) {
            Some(last) => {
                self.waits.part(terminal_id, last);
                true
            },
            None => false,
        }
    }

    /// Someone starts to wait for something of a terminal; returns the number
    /// under which they look.
    pub fn start_wait(&mut self, terminal_id: TerminalId) -> (started: Result<u64, TerminalError>)
        requires
            old(self).wf(),
        ensures
            final(self).wf(),
            match started {
                Ok(number) => {
                    &&& old(self)@.terminals.contains_key(terminal_id.value)
                    &&& !old(self)@.waits.contains_key(number)
                    &&& forall|smaller: u64|
                        smaller < number ==> #[trigger] old(self)@.waits.contains_key(smaller)
                    &&& final(self)@ == (ManagerView {
                        waits: old(self)@.waits.insert(
                            number,
                            (WaitView { terminal_id, left: None }),
                        ),
                        ..old(self)@
                    })
                },
                Err(error) => {
                    &&& !old(self)@.terminals.contains_key(terminal_id.value)
                    &&& error@ == Refusal::NotFound(terminal_id)
                    &&& final(self)@ == old(self)@
                },
            },
    {
        match self.registry.process_state(terminal_id) {
            Ok(_) => Ok(self.waits.start(terminal_id)),
            Err(error) => Err(error),
        }
    }

    /// Someone stops to wait.
    pub fn end_wait(&mut self, number: u64)
        requires
            old(self).wf(),
        ensures
            final(self).wf(),
            final(self)@ == (ManagerView { waits: old(self)@.waits.remove(number), ..old(self)@ }),
    {
        self.waits.end(number);
    }

    /// One look of someone who waits at whether a text was printed; `None`
    /// where nobody waits under the number.
    pub fn contains_text(
        &self,
        number: u64,
        needle: &str,
        timeout_millis: u64,
        progress: WaitProgress,
    ) -> (step: Option<WaitStep>)
        requires
            self.wf(),
        ensures
            match step {
                Some(step) => {
                    let id = self@.waits[number].terminal_id;
                    &&& self@.waits.contains_key(number)
                    &&& match self@.seen(number) {
                        Some(entry) => entry.text_look(id, needle@, timeout_millis, progress, step),
                        None => step.fails(Refusal::NotFound(id)),
                    }
                },
                None => !self@.waits.contains_key(number),
            },
    {
        match self.waits.terminal_id(number) {
            Some(id) => Some(
                match self.waits.left(number) {
                    Some(last) => last.look_for_text(id, needle, timeout_millis, progress),
                    None => self.registry.contains_text(id, needle, timeout_millis, progress),
                },
            ),
            None => None,
        }
    }

    /// One look of someone who waits at whether the process has exited; `None`
    /// where nobody waits under the number.
    pub fn wait_process_exit(&self, number: u64, timeout_millis: u64, progress: WaitProgress) -> (
        step: Option<WaitStep>)
        requires
            self.wf(),
        ensures
            match step {
                Some(step) => {
                    let id = self@.waits[number].terminal_id;
                    &&& self@.waits.contains_key(number)
                    &&& match self@.seen(number) {
                        Some(entry) => entry.exit_look(id, timeout_millis, progress, step),
                        None => step.fails(Refusal::NotFound(id)),
                    }
                },
                None => !self@.waits.contains_key(number),
            },
    {
        match self.waits.terminal_id(number) {
            Some(id) => Some(
                match self.waits.left(number) {
                    Some(last) => last.look_for_exit(id, timeout_millis, progress),
                    None => self.registry.wait_process_exit(id, timeout_millis, progress),
                },
            ),
            None => None,
        }
    }

    fn forget_retired(&mut self, terminal_id: TerminalId)
        requires
            old(self).registry.wf(),
        ensures
            final(self).registry == old(self).registry,
            final(self).waits == old(self).waits,
            final(self).limits == old(self).limits,
            final(self).workers == old(self).workers,
            final(self).retired@ == without(old(self).retired@, terminal_id),
            final(self).retired@.len() <= old(self).retired@.len(),
    {
        let mut kept: VecDeque<TerminalId> = VecDeque::new();
        let mut i: usize = 0;
        assert(self.retired@.take(0) =~= Seq::empty());
        while i < self.retired.len()
            invariant
                i <= self.retired@.len(),
                kept@ == without(self.retired@.take(i as int), terminal_id),
                kept@.len() <= i,
                self.registry == old(self).registry,
                self.waits == old(self).waits,
                self.limits == old(self).limits,
                self.workers == old(self).workers,
                self.retired == old(self).retired,
            decreases self.retired@.len() - i,
        {
            assert(self.retired@.take(i + 1).drop_last() =~= self.retired@.take(i as int));
            let retired: TerminalId = self.retired[i];
            if retired != terminal_id {
                kept.push_back(retired);
            }
            i = i + 1;
        }
        assert(self.retired@.take(i as int) =~= self.retired@);
        self.retired = kept;
    }

    /// Closes a terminal whose worker was stopped, but retains a
    /// bounded final replay for waiters that race with the auto-close event.
    /// Retired replays are bounded and removed at the limit.
    pub fn retire(&mut self, terminal_id: TerminalId)
        requires
            old(self).wf(),
        ensures
            final(self).wf(),
            final(self)@ == old(self)@.with_retired(terminal_id),
    {
        self.forget_retired(terminal_id);
        self.retired.push_back(terminal_id);
        self.registry.compact_for_retirement(terminal_id);
        let ghost whole = self@.forgotten(MAX_RETIRED_TERMINALS as nat);
        while self.retired.len() > MAX_RETIRED_TERMINALS
            invariant
                self.registry.wf(),
                self.waits.wf(),
                self.limits == old(self).limits,
                whole == self@.forgotten(MAX_RETIRED_TERMINALS as nat),
            decreases self.retired@.len(),
        {
            let ghost before = self@;
            if let Some(retired) = self.retired.pop_front() {
                let _ = self.part(retired);
                assert(self@ =~= (ManagerView {
                    retired: before.retired.drop_first(),
                    ..before.parted(before.retired[0])
                }));
            }
        }
    }

    pub fn terminal_count(&self) -> (count: usize)
        ensures
            count == self@.workers.len(),
    {
        self.workers.len()
    }

    pub fn scrollback_lines(&self) -> (lines: usize)
        ensures
            lines == self@.limits.scrollback_lines,
    {
        self.limits.scrollback_lines
    }

    pub fn inactive_scrollback_lines(&self) -> (lines: usize)
        ensures
            lines == self@.limits.inactive_scrollback_lines,
    {
        self.limits.inactive_scrollback_lines
    }

    pub fn max_total_scrollback_bytes(&self) -> (bytes: usize)
        ensures
            bytes == self@.limits.max_total_scrollback_bytes,
    {
        self.limits.max_total_scrollback_bytes
    }

    pub fn replay_history_bytes(&self) -> (bytes: usize)
        ensures
            bytes == self@.limits.replay_history_bytes,
    {
        self.limits.replay_history_bytes
    }

    pub fn retained_replay_bytes(&self) -> (bytes: usize)
        requires
            self.wf(),
            retained_by(in_order(self@.terminals)) <= usize::MAX,
        ensures
            bytes == retained_by(in_order(self@.terminals)),
    {
        self.registry.retained_replay_bytes()
    }

    /// The terminals whose workers a shutdown stops, in the order of their
    /// ids.
    pub fn running(&self) -> (terminals: Vec<TerminalId>)
        ensures
            forall|i: int, j: int|
                0 <= i < j < terminals@.len() ==> terminals@[i].value < terminals@[j].value,
            forall|id: u64|
                self@.workers.contains(id) == exists|i: int|
                    0 <= i < terminals@.len() && (#[trigger] terminals@[i]).value == id,
    {
        let walked: Vec<u64> = self.workers.ids();
        let count: usize = walked.len();
        let ghost entries = self.workers.entries();
        let mut terminals: Vec<TerminalId> = Vec::new();
        let mut i: usize = 0;
        while i < count
            invariant
                count == entries.len() == walked@.len(),
                forall|k: int| 0 <= k < count ==> (#[trigger] walked@[k]) == entries[k].0,
                i <= count,
                terminals@.len() == i,
                forall|k: int| 0 <= k < i ==> (#[trigger] terminals@[k]).value == entries[k].0,
            decreases count - i,
        {
            terminals.push(TerminalId::new(walked[i]));
            i = i + 1;
        }
        assert forall|id: u64|
            self@.workers.contains(id) == exists|i: int|
                0 <= i < terminals@.len() && (#[trigger] terminals@[i]).value == id by {
            if self@.workers.contains(id) {
                let k = choose|k: int| 0 <= k < entries.len() && (#[trigger] entries[k]).0 == id;
                assert(terminals@[k].value == id);
            }
            if exists|i: int| 0 <= i < terminals@.len() && (#[trigger] terminals@[i]).value == id {
                let k = choose|i: int|
                    0 <= i < terminals@.len() && (#[trigger] terminals@[i]).value == id;
                assert(entries[k].0 == id);
            }
        }
        terminals
    }
}

impl TerminalManager {
    /// Forgets every terminal that has a worker; returns them in the order of
    /// their ids, for their workers are then to be shut down.
    pub fn shutdown_all(&mut self) -> (stopped: Vec<TerminalId>)
        requires
            old(self).wf(),
        ensures
            final(self).wf(),
            forall|i: int, j: int|
                0 <= i < j < stopped@.len() ==> stopped@[i].value < stopped@[j].value,
            forall|id: u64|
                old(self)@.workers.contains(id) == exists|i: int|
                    0 <= i < stopped@.len() && (#[trigger] stopped@[i]).value == id,
            final(self)@ == old(self)@.without_all(stopped@),
            final(self)@.workers == Set::<u64>::empty(),
    {
        let stopped: Vec<TerminalId> = self.running();
        let ghost begun = self@;
        let mut at: usize = 0;
        assert(stopped@.take(0) =~= Seq::empty());
        while at < stopped.len()
            invariant
                self.wf(),
                at <= stopped@.len(),
                self@ == begun.without_all(stopped@.take(at as int)),
            decreases stopped@.len() - at,
        {
            assert(stopped@.take(at + 1).drop_last() =~= stopped@.take(at as int));
            let _ = self.stop_worker(stopped[at]);
            self.remove(stopped[at]);
            at = at + 1;
        }
        assert(stopped@.take(at as int) =~= stopped@);
        assert forall|id: u64| !self@.workers.contains(id) by {
            lemma_stopped(begun, stopped@, id);
        }
        assert(self@.workers =~= Set::<u64>::empty());
        stopped
    }
}

proof fn lemma_stopped(manager: ManagerView, ids: Seq<TerminalId>, id: u64)
    ensures
        manager.without_all(ids).workers.contains(id) ==> manager.workers.contains(id)
            && forall|i: int| 0 <= i < ids.len() ==> (#[trigger] ids[i]).value != id,
    decreases ids.len(),
{
    if ids.len() > 0 && manager.without_all(ids).workers.contains(id) {
        lemma_stopped(manager, ids.drop_last(), id);
        assert forall|i: int| 0 <= i < ids.len() implies (#[trigger] ids[i]).value != id by {
            if i < ids.len() - 1 {
                assert(ids.drop_last()[i].value != id);
            }
        }
    }
}

/// A command is handed out exactly where the terminal runs.
pub open spec fn accepted(
    manager: ManagerView,
    id: TerminalId,
    command: Result<TerminalWorkerCommand, TerminalError>,
) -> bool {
    match command {
        Ok(_) => manager.terminals.contains_key(id.value) && !(
        manager.terminals[id.value].process is Exited),
        Err(error) => if manager.terminals.contains_key(id.value) {
            manager.terminals[id.value].process is Exited && error@ == Refusal::NotRunning(id)
        } else {
            error@ == Refusal::NotFound(id)
        },
    }
}

/// However many terminals are closed, only the newest are kept, and the one
/// that was closed last is among them.
pub proof fn only_the_newest_closed_terminals_are_kept(manager: ManagerView, id: TerminalId)
    ensures
        manager.with_retired(id).retired.len() <= MAX_RETIRED_TERMINALS,
        manager.with_retired(id).retired.last() == id,
{
    let compacted = if manager.terminals.contains_key(id.value) {
        manager.terminals.insert(id.value, manager.terminals[id.value].compacted())
    } else {
        manager.terminals
    };
    lemma_forgotten(
        ManagerView {
            terminals: compacted,
            retired: without(manager.retired, id).push(id),
            ..manager
        },
        MAX_RETIRED_TERMINALS as nat,
    );
}

proof fn lemma_forgotten(manager: ManagerView, most: nat)
    requires
        manager.retired.len() > 0,
        most > 0,
    ensures
        manager.forgotten(most).retired.len() <= most,
        manager.forgotten(most).retired.len() > 0,
        manager.forgotten(most).retired.last() == manager.retired.last(),
    decreases manager.retired.len(),
{
    if manager.retired.len() > most {
        lemma_forgotten(
            ManagerView {
                retired: manager.retired.drop_first(),
                ..manager.parted(manager.retired[0])
            },
            most,
        );
    }
}

/// Those who wait for a terminal see it to the end: whatever terminal is
/// removed, they find what they would have found before.
pub proof fn a_removed_terminal_is_still_seen(manager: ManagerView, id: TerminalId, number: u64)
    requires
        manager.waits.contains_key(number),
    ensures
        manager.removed(id).waits.contains_key(number),
        manager.removed(id).waits[number].terminal_id == manager.waits[number].terminal_id,
        manager.removed(id).seen(number) == manager.seen(number),
{
}

proof fn lemma_forgotten_is_still_seen(manager: ManagerView, most: nat, number: u64)
    requires
        manager.waits.contains_key(number),
    ensures
        manager.forgotten(most).waits.contains_key(number),
        manager.forgotten(most).seen(number) == manager.seen(number),
    decreases manager.retired.len(),
{
    if manager.retired.len() > most {
        lemma_forgotten_is_still_seen(
            ManagerView {
                retired: manager.retired.drop_first(),
                ..manager.parted(manager.retired[0])
            },
            most,
            number,
        );
    }
}

/// Those who wait for a terminal that is closed find what is kept of closed
/// ones, and those who wait for another find what they would have found
/// before, however many closed ones are forgotten.
pub proof fn a_closed_terminal_is_still_seen(manager: ManagerView, id: TerminalId, number: u64)
    requires
        manager.waits.contains_key(number),
    ensures
        manager.with_retired(id).waits.contains_key(number),
        manager.with_retired(id).seen(number) == match manager.seen(number) {
            Some(entry) => Some(
                if manager.waits[number].terminal_id == id && manager.waits[number].left is None {
                    entry.compacted()
                } else {
                    entry
                },
            ),
            None => None,
        },
{
    let compacted = if manager.terminals.contains_key(id.value) {
        manager.terminals.insert(id.value, manager.terminals[id.value].compacted())
    } else {
        manager.terminals
    };
    let closed = ManagerView {
        terminals: compacted,
        retired: without(manager.retired, id).push(id),
        ..manager
    };
    lemma_forgotten_is_still_seen(closed, MAX_RETIRED_TERMINALS as nat, number);
}

/// A terminal that is removed is not known any more, and asking for it says so.
pub proof fn a_removed_terminal_is_unknown(manager: ManagerView, id: TerminalId)
    ensures
        !manager.removed(id).terminals.contains_key(id.value),
        !manager.removed(id).retired.contains(id),
{
    lemma_without(manager.retired, id);
}

proof fn lemma_without(terminals: Seq<TerminalId>, id: TerminalId)
    ensures
        !without(terminals, id).contains(id),
    decreases terminals.len(),
{
    if terminals.len() > 0 {
        lemma_without(terminals.drop_last(), id);
        if terminals.last() != id {
            let before = without(terminals.drop_last(), id);
            let after = before.push(terminals.last());
            assert forall|i: int| 0 <= i < after.len() implies after[i] != id by {
                if i < before.len() {
                    assert(after[i] == before[i]);
                    assert(before.contains(before[i]));
                }
            }
        }
    }
}

/// Taking a terminal out of a list keeps every other one and their order.
pub proof fn one_terminal_is_taken_out(front: Seq<TerminalId>, last: TerminalId, id: TerminalId)
    ensures
        without(Seq::empty(), id) == Seq::<TerminalId>::empty(),
        last == id ==> without(front.push(last), id) == without(front, id),
        last != id ==> without(front.push(last), id) == without(front, id).push(last),
{
    assert(front.push(last).drop_last() =~= front);
}

proof fn lemma_without_absent(terminals: Seq<TerminalId>, id: TerminalId)
    requires
        !terminals.contains(id),
    ensures
        without(terminals, id) == terminals,
    decreases terminals.len(),
{
    if terminals.len() > 0 {
        assert(terminals.contains(terminals.last()));
        assert forall|other: TerminalId| terminals.drop_last().contains(other) implies #[trigger]
            terminals.contains(other) by {
            let i = choose|i: int|
                0 <= i < terminals.drop_last().len() && terminals.drop_last()[i] == other;
            assert(terminals[i] == other);
        }
        lemma_without_absent(terminals.drop_last(), id);
        assert(terminals.drop_last().push(terminals.last()) =~= terminals);
    }
}

/// A terminal that is closed stays known, with a history that is bounded, as the
/// newest of the closed ones; where there is room for it, no other terminal
/// changes.
pub proof fn a_closed_terminal_stays_for_a_while(manager: ManagerView, id: TerminalId, other: u64)
    requires
        manager.terminals.contains_key(id.value),
        !manager.retired.contains(id),
        manager.retired.len() < MAX_RETIRED_TERMINALS,
        other != id.value,
    ensures
        ({
            let after = manager.with_retired(id);
            &&& after.retired == manager.retired.push(id)
            &&& after.terminals.contains_key(id.value)
            &&& after.terminals[id.value].process == manager.terminals[id.value].process
            &&& after.terminals.contains_key(other) == manager.terminals.contains_key(other)
            &&& manager.terminals.contains_key(other) ==> after.terminals[other]
                == manager.terminals[other]
            &&& after.workers == manager.workers
            &&& after.waits == manager.waits
        }),
{
    lemma_without_absent(manager.retired, id);
}

/// The name of a process is shown without the dashes of a login shell, and a
/// process without one is a shell.
pub proof fn a_login_shell_is_shown_by_its_name(name: Seq<char>)
    requires
        name.len() > 0,
        name[0] != '-',
    ensures
        shown_name(Some(name)) == name,
        shown_name(Some(seq!['-'] + name)) == name,
        shown_name(None) == "shell"@,
        shown_name(Some(Seq::empty())) == "shell"@,
{
    let dashed = seq!['-'] + name;
    assert(dashed.drop_first() =~= name);
    reveal_with_fuel(without_leading, 2);
    reveal_strlit("shell");
}

/// The history of a terminal begins with its size, under the number one.
pub proof fn a_history_begins_with_the_size(manager: ManagerView, size: TerminalSize)
    ensures
        ({
            let history = manager.first_history(size);
            &&& history.events.len() == 1
            &&& history.events[0].seq == 1
            &&& history.events[0].size == size
            &&& history.events[0].kind is Resize
            &&& history.next_seq == 2
            &&& history.budget == manager.limits.replay_history_bytes
        }),
{
}

/// A terminal takes input while its process runs; once it has exited it is
/// refused as not running, and one that is not known as not found.
pub proof fn only_a_running_terminal_takes_input(
    manager: ManagerView,
    id: TerminalId,
    command: Result<TerminalWorkerCommand, TerminalError>,
)
    requires
        accepted(manager, id, command),
    ensures
        ({
            let known = manager.terminals.contains_key(id.value);
            let exited = known && manager.terminals[id.value].process is Exited;
            &&& known && !exited ==> command is Ok
            &&& exited ==> (command matches Err(error) && error@ == Refusal::NotRunning(id))
            &&& !known ==> (command matches Err(error) && error@ == Refusal::NotFound(id))
        }),
{
}

/// A terminal that is removed is gone, with all others left as they are.
pub proof fn one_terminal_is_removed(manager: ManagerView, id: TerminalId, other: u64)
    requires
        other != id.value,
    ensures
        ({
            let after = manager.removed(id);
            &&& !after.terminals.contains_key(id.value)
            &&& after.terminals.contains_key(other) == manager.terminals.contains_key(other)
            &&& manager.terminals.contains_key(other) ==> after.terminals[other]
                == manager.terminals[other]
            &&& after.limits == manager.limits
            &&& after.workers == manager.workers
        }),
{
}

/// Someone who waits sees what was kept for them, and else the terminal itself.
pub proof fn a_waiter_sees_the_terminal(manager: ManagerView, number: u64)
    requires
        manager.waits.contains_key(number),
    ensures
        ({
            let wait = manager.waits[number];
            let id = wait.terminal_id.value;
            &&& wait.left is Some ==> manager.seen(number) == wait.left
            &&& wait.left is None && manager.terminals.contains_key(id) ==> manager.seen(number)
                == Some(manager.terminals[id])
            &&& wait.left is None && !manager.terminals.contains_key(id) ==> manager.seen(
                number,
            ) is None
        }),
{
}

/// A plan starts the program with its arguments, its geometry and its working
/// directory; until more is known the process goes by the name of the program,
/// and its directory by the one it was started in.
pub proof fn a_plan_starts_what_was_asked_for(
    plan: SpawnPlan,
    program: Seq<char>,
    args: Seq<Seq<char>>,
    size: TerminalSize,
    directory: Option<Seq<char>>,
    current: Option<Seq<char>>,
)
    requires
        plan.starts(program, args, size, directory, current),
        size.columns <= u16::MAX,
        size.lines <= u16::MAX,
    ensures
        plan.program@ == program,
        texts(plan.args@) == args,
        plan.window_columns == size.columns,
        plan.window_lines == size.lines,
        directory is Some ==> plan.working_directory is Some && plan.working_directory->0@
            == directory->0 && plan.fallback_cwd@ == directory->0,
        directory is None ==> plan.working_directory is None,
        directory is None && current is Some ==> plan.fallback_cwd@ == current->0,
        directory is None && current is None ==> plan.fallback_cwd@ == "."@,
        plan.fallback_process_name@ == shown_name(final_name(program)),
        texts(plan.fallback_cmdline@) == seq![program] + args,
{
}

/// A manager starts without terminals, with its limits put into their ranges.
pub proof fn a_manager_starts_without_terminals(limits: TerminalLimits, id: u64)
    ensures
        ({
            let manager = ManagerView::started_with(limits);
            &&& manager.limits == limits.in_range()
            &&& !manager.terminals.contains_key(id)
            &&& !manager.workers.contains(id)
            &&& !manager.waits.contains_key(id)
            &&& manager.retired.len() == 0
        }),
{
}

/// Of several terminals that are removed none is left, and no other is touched.
pub proof fn several_terminals_are_removed(
    manager: ManagerView,
    front: Seq<TerminalId>,
    last: TerminalId,
    other: u64,
)
    ensures
        ({
            let before = manager.without_all(front);
            let after = manager.without_all(front.push(last));
            &&& !after.terminals.contains_key(last.value)
            &&& !after.workers.contains(last.value)
            &&& other != last.value ==> after.terminals.contains_key(other)
                == before.terminals.contains_key(other) && after.workers.contains(other)
                == before.workers.contains(other)
        }),
        manager.without_all(Seq::empty()) == manager,
{
    assert(front.push(last).drop_last() =~= front);
}

} // verus!

//! Local terminal emulator: the GUI-side screen of one terminal.
//!
//! The server never renders; it emits an ordered raw PTY stream. The GUI
//! replays the bounded history and then the live tail into this local
//! emulator, which owns the screen grid, cursor, modes, and scrollback.
//! Rendering reads [`TerminalEmulator::snapshot`]; keyboard/mouse input
//! goes to the PTY through the regular command path, and emulator query
//! responses come back out through [`TerminalEmulator::pty_writes`].
use vstd::prelude::*;
use vstd::slice::*;

use super::capture::grid_snapshot;
use super::grid::{
    cursor_shown, modes_of_bits, read_cursor_shown, read_modes, read_shape, GridShape,
};
use super::palette::{
    digits_are_counted_across_pieces, proper_output_is_kept, tamed_colors_fit, ColorFilter, Place,
};
use super::screen::{
    answers, answers_to, byte_steps, lemma_after, limited, screen_cells, screen_mode, screen_reports,
    screen_shape, Screen, ScreenLog, ScreenOp, ScreenReport, MAX_HISTORY_LINES,
};
use super::snapshot::{
    SnapshotView, TerminalProcessState, TerminalSize, TerminalSnapshot, MAX_COLUMNS, MAX_LINES,
};
use super::registry::{ReplayView, TerminalReplay};
use super::stream::{
    event_of_wire, numbered_in_a_row, StreamEvent, TerminalSeq, TerminalStreamEvent, WireEvent,
};
use super::worker::machine::all_output;
use super::TerminalTheme;
use crate::ids::TerminalId;
use crate::num::{clamp_i64, clamped, max_of, min_of, saturating_add_i64, saturating_sub_i64};

verus! {

/// The sequence that clears the scrollback, `ESC [ 3 J`.
pub open spec fn clear_sequence() -> Seq<u8> {
    seq![0x1bu8, 0x5bu8, 0x33u8, 0x4au8]
}

/// `bytes` may be the start of the clear sequence.
pub open spec fn starts_clear(bytes: Seq<u8>) -> bool {
    bytes.len() < 4 && forall|i: int|
        0 <= i < bytes.len() ==> #[trigger] bytes[i] == clear_sequence()[i]
}

/// `bytes` begin with the clear sequence.
pub open spec fn clears(bytes: Seq<u8>) -> bool {
    bytes.len() >= 4 && forall|i: int|
        0 <= i < 4 ==> #[trigger] bytes[i] == clear_sequence()[i]
}

/// What is left of output once the clear sequences are taken out, and what
/// waits because it may be the start of one.
pub open spec fn without_clears(bytes: Seq<u8>) -> (Seq<u8>, Seq<u8>)
    decreases bytes.len(),
{
    if starts_clear(bytes) {
        (Seq::empty(), bytes)
    } else if clears(bytes) {
        without_clears(bytes.skip(4))
    } else {
        let (rest, waiting) = without_clears(bytes.skip(1));
        (seq![bytes[0]] + rest, waiting)
    }
}

/// Taking out the clear sequences does not depend on how the output is cut:
/// what waits is put before the next piece.
pub proof fn clears_are_found_across_pieces(front: Seq<u8>, back: Seq<u8>)
    ensures
        ({
            let (kept, waiting) = without_clears(front);
            let (more, left) = without_clears(waiting + back);
            without_clears(front + back) == (kept + more, left)
        }),
    decreases front.len(),
{
    let (kept, waiting) = without_clears(front);
    let (more, left) = without_clears(waiting + back);
    let whole = front + back;
    if starts_clear(front) {
        assert(kept + more =~= more);
    } else if clears(front) {
        assert(forall|i: int| 0 <= i < 4 ==> whole[i] == front[i]);
        assert(whole.skip(4) =~= front.skip(4) + back);
        clears_are_found_across_pieces(front.skip(4), back);
    } else {
        assert(whole.skip(1) =~= front.skip(1) + back);
        clears_are_found_across_pieces(front.skip(1), back);
        assert(forall|i: int| 0 <= i < front.len() ==> whole[i] == front[i]);
        assert(!clears(whole));
        assert(!starts_clear(whole));
        let (rest, _) = without_clears(front.skip(1));
        assert(seq![front[0]] + (rest + more) =~= kept + more);
    }
}

/// Takes the clear sequences out of `input`; returns what is left and where
/// the bytes that wait start.
fn filter_clears(input: &[u8]) -> (filtered: (Vec<u8>, usize))
    ensures
        filtered.1 <= input@.len(),
        without_clears(input@) == (filtered.0@, input@.skip(filtered.1 as int)),
{
    let mut kept: Vec<u8> = Vec::new();
    let mut index: usize = 0;
    assert(input@.skip(0) =~= input@);
    assert(kept@ + without_clears(input@).0 =~= without_clears(input@).0);
    loop
        invariant
            index <= input@.len() == input.len(),
            without_clears(input@).0 == kept@ + without_clears(input@.skip(index as int)).0,
            without_clears(input@).1 == without_clears(input@.skip(index as int)).1,
        decreases input@.len() - index,
    {
        let ghost rest = input@.skip(index as int);
        let left: usize = input.len() - index;
        let matching: bool = (left < 1 || input[index] == 0x1b) && (left < 2 || input[index + 1]
            == 0x5b) && (left < 3 || input[index + 2] == 0x33) && (left < 4 || input[index + 3]
            == 0x4a);
        proof {
            assert(left >= 1 ==> rest[0] == input@[index as int]);
            assert(left >= 2 ==> rest[1] == input@[index + 1]);
            assert(left >= 3 ==> rest[2] == input@[index + 2]);
            assert(left >= 4 ==> rest[3] == input@[index + 3]);
            assert(matching == (starts_clear(rest) || clears(rest)));
        }
        if left < 4 && matching {
            assert(kept@ + Seq::<u8>::empty() =~= kept@);
            return (kept, index);
        }
        if matching {
            assert(rest.skip(4) =~= input@.skip(index + 4));
            index = index + 4;
        } else {
            let ghost before = kept@;
            kept.push(input[index]);
            assert(rest.skip(1) =~= input@.skip(index + 1));
            assert(kept@ + without_clears(rest.skip(1)).0 =~= before + (seq![rest[0]]
                + without_clears(rest.skip(1)).0));
            index = index + 1;
        }
    }
}

/// How the emulator reacts to an applied event.
#[derive(Debug, Clone, PartialEq, Eq)]
pub enum EmulatorEffect {
    /// The emulator answered a terminal query (DA/DSR/OSC color/...); the
    /// bytes must be written to the PTY.
    PtyWrite(Vec<u8>),
    /// The PTY child exited.
    Exited { code: Option<i32> },
    /// A live stream skipped a sequence; the caller must discard this
    /// emulator and reattach from the server replay ring.
    SequenceGap { expected: TerminalSeq, actual: TerminalSeq },
}

/// The state of an emulator.
#[verifier::ext_equal]
pub struct EmulatorView {
    pub terminal_id: TerminalId,
    pub scrollback_lines: int,
    pub theme: TerminalTheme,
    pub screen: ScreenLog,
    pub live: bool,
    pub last_seq: int,
    pub process: TerminalProcessState,
    pub dirty: bool,
    pub pinned: bool,
    pub pinned_viewport: int,
    pub protected: bool,
    /// Bytes that may be the start of a clear sequence.
    pub waiting: Seq<u8>,
    /// Answers that wait to be written to the PTY.
    pub writes: Seq<Seq<u8>>,
}

impl EmulatorView {
    pub open spec fn shape(self) -> GridShape {
        screen_shape(self.screen)
    }

    pub open spec fn size(self) -> TerminalSize {
        TerminalSize::clamped_size(
            self.shape().columns as int,
            self.shape().screen_lines as int,
        )
    }

    pub open spec fn display_offset(self) -> int {
        self.shape().display_offset as int
    }

    /// The position of the viewport: 0 at the bottom, lines up from there.
    pub open spec fn viewport_position(self) -> int {
        if self.pinned {
            self.pinned_viewport
        } else {
            self.display_offset()
        }
    }

    /// The emulator after an operation on its screen that answers nothing.
    pub open spec fn operated(self, operation: ScreenOp) -> EmulatorView {
        EmulatorView { screen: self.screen.after(operation), ..self }
    }

    /// The emulator after its screen has interpreted `bytes`, whose colours
    /// lose the digits that are too many; what it answers is only kept once
    /// the emulator is live.
    pub open spec fn interpreted(self, bytes: Seq<u8>) -> EmulatorView {
        if bytes.len() == 0 {
            self
        } else {
            let after = self.operated(ScreenOp::Output(self.screen.place().tamed(bytes)));
            if self.live {
                EmulatorView {
                    writes: self.writes + answers_to(self.theme, screen_reports(after.screen)),
                    ..after
                }
            } else {
                after
            }
        }
    }

    /// The emulator after raw output: a pinned viewport keeps the whole
    /// history, and protected scrollback is not cleared.
    pub open spec fn advanced(self, bytes: Seq<u8>) -> EmulatorView {
        let roused = EmulatorView { dirty: self.dirty || bytes.len() > 0, ..self };
        let roomy = if self.pinned {
            roused.operated(ScreenOp::History(MAX_HISTORY_LINES as int))
        } else {
            roused
        };
        if self.protected {
            let (kept, waiting) = without_clears(self.waiting + bytes);
            EmulatorView { waiting, ..roomy }.interpreted(kept)
        } else {
            EmulatorView { waiting: Seq::empty(), ..roomy }.interpreted(self.waiting).interpreted(
                bytes,
            )
        }
    }

    /// The emulator after the output that has been collected.
    pub open spec fn flushed(self, output: Seq<u8>) -> EmulatorView {
        if output.len() > 0 {
            self.advanced(output)
        } else {
            self
        }
    }

    /// A live stream has skipped ahead of the last applied sequence.
    pub open spec fn has_gap(self, seq: int) -> bool {
        self.live && self.last_seq != 0 && seq != min_of(self.last_seq + 1, u64::MAX as int)
    }

    /// One event: the emulator, the output that is collected and not yet
    /// interpreted, what has been reported, and whether the batch goes on.
    /// An event that was applied before is skipped; a gap ends the batch.
    pub open spec fn event_applied(
        self,
        event: StreamEvent,
        output: Seq<u8>,
        effects: Seq<EmulatorEffect>,
    ) -> (EmulatorView, Seq<u8>, Seq<EmulatorEffect>, bool) {
        if event.seq() <= self.last_seq {
            (self, output, effects, true)
        } else if self.has_gap(event.seq() as int) {
            let gap = EmulatorEffect::SequenceGap {
                expected: min_of(self.last_seq + 1, u64::MAX as int) as u64,
                actual: event.seq(),
            };
            (self, output, effects.push(gap), false)
        } else {
            let reached = EmulatorView { last_seq: event.seq() as int, dirty: true, ..self };
            match event {
                StreamEvent::Output { bytes, .. } => (reached, output + bytes, effects, true),
                StreamEvent::Resize { size, .. } => {
                    let flushed = reached.flushed(output);
                    let resized = if size != flushed.screen.geometry() {
                        flushed.operated(ScreenOp::Resize(size))
                    } else {
                        flushed
                    };
                    (resized, Seq::empty(), effects, true)
                },
                StreamEvent::Exit { code, .. } => (
                    EmulatorView {
                        process: TerminalProcessState::Exited { code },
                        ..reached.flushed(output)
                    },
                    Seq::empty(),
                    effects.push(EmulatorEffect::Exited { code }),
                    true,
                ),
            }
        }
    }

    /// The emulator after the events from `at` on, and what it reports of
    /// them.  Adjacent output is interpreted in one piece.
    pub open spec fn applied(
        self,
        events: Seq<StreamEvent>,
        at: int,
        output: Seq<u8>,
        effects: Seq<EmulatorEffect>,
    ) -> (EmulatorView, Seq<EmulatorEffect>)
        decreases events.len() - at,
    {
        if at >= events.len() {
            (self.flushed(output), effects)
        } else {
            let (next, collected, reported, goes_on) = self.event_applied(
                events[at],
                output,
                effects,
            );
            if goes_on {
                next.applied(events, at + 1, collected, reported)
            } else {
                (next.flushed(collected), reported)
            }
        }
    }

    /// The emulator with its history back at the configured limit.
    pub open spec fn trimmed(self) -> EmulatorView {
        self.operated(ScreenOp::History(self.scrollback_lines))
    }

    /// The emulator at the live bottom.
    pub open spec fn at_live_bottom(self) -> EmulatorView {
        EmulatorView { pinned: false, pinned_viewport: 0, dirty: true, ..self.trimmed() }.operated(
            ScreenOp::Bottom,
        )
    }

    /// The emulator after the display has moved, before the pin follows. A
    /// step goes no further than line numbers do.
    pub open spec fn display_moved(self, delta: int) -> EmulatorView {
        let ready = if self.pinned && delta < 0 {
            EmulatorView {
                pinned_viewport: self.trimmed().display_offset(),
                ..self.trimmed()
            }
        } else {
            self
        };
        ready.operated(
            ScreenOp::Scroll(
                min_of(
                    clamped(delta, i32::MIN as int, i32::MAX as int),
                    i32::MAX - ready.display_offset(),
                ),
            ),
        )
    }

    /// The emulator after a scroll by `delta` lines, positive into history.
    pub open spec fn scrolled_by(self, delta: int) -> EmulatorView {
        if delta == 0 {
            self
        } else {
            let before = if self.pinned && delta < 0 {
                self.trimmed()
            } else {
                self
            };
            let moved = self.display_moved(delta);
            let followed = if moved.pinned {
                EmulatorView {
                    pinned_viewport: clamped(
                        clamped(
                            moved.pinned_viewport + moved.display_offset()
                                - before.display_offset(),
                            i64::MIN as int,
                            i64::MAX as int,
                        ),
                        0,
                        moved.shape().history(),
                    ),
                    ..moved
                }
            } else {
                EmulatorView {
                    pinned_viewport: moved.display_offset(),
                    pinned: moved.display_offset() > 0,
                    ..moved
                }
            };
            if followed.pinned && followed.pinned_viewport == 0 {
                followed.at_live_bottom()
            } else {
                EmulatorView { dirty: true, ..followed }
            }
        }
    }

    /// The emulator after a scroll to a position.
    pub open spec fn scrolled_to(self, target: int) -> EmulatorView {
        let target = min_of(max_of(target, 0), self.shape().history());
        if target == 0 {
            self.at_live_bottom()
        } else {
            let pinned = if self.pinned {
                self
            } else {
                EmulatorView { pinned: true, pinned_viewport: self.display_offset(), ..self }
            };
            pinned.scrolled_by(target - pinned.viewport_position())
        }
    }

    /// The emulator with its viewport pinned or released.
    pub open spec fn with_pin(self, pinned: bool) -> EmulatorView {
        if pinned {
            EmulatorView {
                pinned: true,
                pinned_viewport: if self.pinned {
                    self.pinned_viewport
                } else {
                    self.display_offset()
                },
                ..self
            }.operated(ScreenOp::History(MAX_HISTORY_LINES as int))
        } else {
            EmulatorView { pinned: false, pinned_viewport: 0, ..self.trimmed() }
        }
    }

    /// The emulator with its scrollback protected or not; what waited is
    /// interpreted once the protection ends.
    pub open spec fn with_protection(self, protected: bool) -> EmulatorView {
        if protected == self.protected {
            self
        } else if protected {
            EmulatorView { protected, dirty: true, ..self }
        } else {
            EmulatorView {
                dirty: true,
                ..(EmulatorView { protected, waiting: Seq::empty(), ..self }).interpreted(
                    self.waiting,
                )
            }
        }
    }

    /// The emulator with another history limit. A pinned viewport keeps its
    /// history until it is released.
    pub open spec fn with_limit(self, lines: int) -> EmulatorView {
        let limited = EmulatorView { scrollback_lines: numbered(lines), ..self };
        if self.pinned {
            limited
        } else {
            limited.trimmed()
        }
    }

    /// What is displayed.
    pub open spec fn snapshot(self) -> SnapshotView {
        grid_snapshot(
            self.terminal_id,
            self.shape(),
            screen_cells(self.screen),
            screen_mode(self.screen),
            self.process,
            self.last_seq as u64,
            self.viewport_position() as i64,
        )
    }

    /// The screen can be displayed: its lines are within the emulator's line
    /// numbers, and the display is within the history. A program that scrolls
    /// a region below the top of the screen may move it beyond.
    pub open spec fn displayable(self) -> bool {
        &&& self.shape().total_lines <= i32::MAX
        &&& self.shape().display_offset <= self.shape().history()
    }

    /// Line counts are within the emulator's line numbers.
    pub open spec fn countable(self) -> bool {
        &&& self.shape().display_offset <= i32::MAX
        &&& self.shape().total_lines <= i32::MAX
    }
}

/// The GUI-owned terminal screen. One instance per (connection, terminal).
pub struct TerminalEmulator {
    screen: Screen,
    theme: TerminalTheme,
    live: bool,
    terminal_id: TerminalId,
    scrollback_lines: usize,
    last_seq: TerminalSeq,
    process: TerminalProcessState,
    /// Local visual state changed since the GUI last consumed it.
    dirty: bool,
    /// Viewport pinned for browsing scrollback. The grid keeps a non-bottom
    /// display anchored when output arrives by advancing its physical
    /// `display_offset`; this flag tells us to keep a separate user
    /// coordinate so that output-driven movement is not mistaken for a user
    /// scroll.
    viewport_pinned: bool,
    /// User-driven viewport coordinate. Unlike the grid's physical
    /// `display_offset`, this value does not change when new output is
    /// appended while the viewport is pinned.
    pinned_viewport: i64,
    /// Pi's regular TUI uses CSI 3 J to clear the host scrollback on a full
    /// redraw. Keep that sequence local to the alternate-screen-like agent
    /// session so the terminal's existing history remains available after it
    /// exits. The filter is stateful because PTY chunks can split an escape
    /// sequence at any byte boundary.
    scrollback_protected: bool,
    pending_scrollback_clear: Vec<u8>,
    colors: ColorFilter,
    writes: Vec<Vec<u8>>,
}

/// The byte strings of some vectors.
pub open spec fn byte_strings(vectors: Seq<Vec<u8>>) -> Seq<Seq<u8>> {
    vectors.map_values(|bytes: Vec<u8>| bytes@)
}

impl View for TerminalEmulator {
    type V = EmulatorView;

    closed spec fn view(&self) -> EmulatorView {
        EmulatorView {
            terminal_id: self.terminal_id,
            scrollback_lines: self.scrollback_lines as int,
            theme: self.theme,
            screen: self.screen@,
            live: self.live,
            last_seq: self.last_seq as int,
            process: self.process,
            dirty: self.dirty,
            pinned: self.viewport_pinned,
            pinned_viewport: self.pinned_viewport as int,
            protected: self.scrollback_protected,
            waiting: self.pending_scrollback_clear@,
            writes: byte_strings(self.writes@),
        }
    }
}

/// The events as what they say.
pub open spec fn stream_events(events: Seq<TerminalStreamEvent>) -> Seq<StreamEvent> {
    events.map_values(|event: TerminalStreamEvent| event@)
}

/// The geometry of every resize is within the limits.
pub open spec fn resizes_within_limits(events: Seq<StreamEvent>) -> bool {
    forall|i: int|
        0 <= i < events.len() ==> match #[trigger] events[i] {
            StreamEvent::Resize { size, .. } => size.within_limits(),
            _ => true,
        }
}

impl TerminalEmulator {
    /// What waits is never a whole clear sequence, the position is within the
    /// history, the grid has the size that it was given, which is that of a
    /// terminal, and a history whose lines can be numbered, and the colours are followed from where the output has
    /// come to.
    pub closed spec fn wf(&self) -> bool {
        &&& 2 <= screen_shape(self.screen@).columns <= MAX_COLUMNS
        &&& 1 <= screen_shape(self.screen@).screen_lines <= MAX_LINES
        &&& screen_shape(self.screen@).columns == self.screen@.geometry().columns
        &&& screen_shape(self.screen@).screen_lines == self.screen@.geometry().lines
        &&& self.pending_scrollback_clear@.len() < 4
        &&& 0 <= self.pinned_viewport
        &&& self.scrollback_lines <= MAX_HISTORY_LINES
        &&& self.screen@.roomiest() <= MAX_HISTORY_LINES
        &&& self.colors@ == self.screen@.place()
        &&& self.colors@.fits()
    }

    pub fn new(terminal_id: TerminalId, size: TerminalSize, scrollback_lines: usize) -> (emulator:
        Self)
        requires
            size.within_limits(),
        ensures
            emulator.wf(),
            emulator@ == initial_state(
                terminal_id,
                size,
                scrollback_lines as int,
                TerminalTheme::standard(),
                false,
            ),
            emulator@.size() == size,
            emulator@.viewport_position() == 0,
            emulator@.displayable(),
    {
        Self::with_theme(terminal_id, size, scrollback_lines, TerminalTheme::default())
    }

    pub fn with_theme(
        terminal_id: TerminalId,
        size: TerminalSize,
        scrollback_lines: usize,
        theme: TerminalTheme,
    ) -> (emulator: Self)
        requires
            size.within_limits(),
        ensures
            emulator.wf(),
            emulator@ == initial_state(terminal_id, size, scrollback_lines as int, theme, false),
            emulator@.size() == size,
            emulator@.viewport_position() == 0,
            emulator@.displayable(),
    {
        Self::with_theme_and_scrollback_protection(
            terminal_id,
            size,
            scrollback_lines,
            theme,
            false,
        )
    }

    pub fn with_theme_and_scrollback_protection(
        terminal_id: TerminalId,
        size: TerminalSize,
        scrollback_lines: usize,
        theme: TerminalTheme,
        scrollback_protected: bool,
    ) -> (emulator: Self)
        requires
            size.within_limits(),
        ensures
            emulator.wf(),
            emulator@ == initial_state(
                terminal_id,
                size,
                scrollback_lines as int,
                theme,
                scrollback_protected,
            ),
            emulator@.size() == size,
            emulator@.viewport_position() == 0,
            emulator@.displayable(),
    {
        let lines: usize = scrollback_lines.min(MAX_HISTORY_LINES);
        let emulator = Self {
            screen: Screen::new(size, lines),
            theme,
            live: false,
            terminal_id,
            scrollback_lines: lines,
            last_seq: 0,
            process: TerminalProcessState::Running,
            dirty: false,
            viewport_pinned: false,
            pinned_viewport: 0,
            scrollback_protected,
            pending_scrollback_clear: Vec::new(),
            colors: ColorFilter::new(),
            writes: Vec::new(),
        };
        assert(emulator@ =~= initial_state(
            terminal_id,
            size,
            scrollback_lines as int,
            theme,
            scrollback_protected,
        ));
        emulator
    }

    fn advance_unfiltered(&mut self, bytes: &[u8])
        requires
            old(self).wf(),
        ensures
            final(self)@ == old(self)@.interpreted(bytes@),
            final(self).wf(),
    {
        if bytes.len() == 0 {
            return;
        }
        let tamed: Vec<u8> = self.colors.feed(bytes);
        proof {
            tamed_colors_fit(self.screen@.place(), bytes@);
            lemma_after(self.screen@, ScreenOp::Output(tamed@));
            assert(tamed@.take(tamed@.len() as int) =~= tamed@);
        }
        let reports: Vec<ScreenReport> = self.screen.advance(tamed.as_slice());
        if self.live {
            let mut more: Vec<Vec<u8>> = answers(self.theme, &reports);
            let ghost before = self.writes@;
            let ghost added = more@;
            self.writes.append(&mut more);
            assert(byte_strings(self.writes@) =~= byte_strings(before) + byte_strings(added));
        }
        assert(self@ =~= old(self)@.interpreted(bytes@));
    }

    /// Runs raw PTY bytes through the persistent parser against the local
    /// screen. The grid itself preserves a non-bottom display while it
    /// grows; do not restore `display_offset` here because doing so changes
    /// the rows that are actually visible.
    pub fn advance(&mut self, bytes: &[u8])
        requires
            old(self).wf(),
        ensures
            final(self).wf(),
            final(self)@ == old(self)@.advanced(bytes@),
    {
        if bytes.len() > 0 {
            self.dirty = true;
        }
        if self.viewport_pinned {
            // Preserve the rows behind a browsing viewport even after the
            // configured history limit is reached. The excess is deliberately
            // temporary: the first downward scroll trims it back to the
            // configured limit, so an idle live stream cannot permanently
            // change the terminal's scrollback size.
            proof {
                lemma_after(self.screen@, ScreenOp::History(MAX_HISTORY_LINES as int));
            }
            self.screen.limit_history(MAX_HISTORY_LINES);
        }
        let mut pending: Vec<u8> = Vec::new();
        std::mem::swap(&mut pending, &mut self.pending_scrollback_clear);
        if self.scrollback_protected {
            let mut input: Vec<u8> = pending;
            input.extend_from_slice(bytes);
            assert(input@ =~= old(self)@.waiting + bytes@);
            let (filtered, waiting): (Vec<u8>, usize) = filter_clears(input.as_slice());
            proof {
                lemma_waiting_is_short(input@);
            }
            self.pending_scrollback_clear = slice_to_vec(
                slice_subrange(input.as_slice(), waiting, input.len()),
            );
            assert(self.pending_scrollback_clear@ =~= input@.skip(waiting as int));
            self.advance_unfiltered(filtered.as_slice());
        } else {
            assert(self.pending_scrollback_clear@ =~= Seq::empty());
            self.advance_unfiltered(pending.as_slice());
            self.advance_unfiltered(bytes);
        }
    }

    /// Interprets the output that has been collected.
    fn flush(&mut self, output: &mut Vec<u8>)
        requires
            old(self).wf(),
        ensures
            final(self).wf(),
            final(self)@ == old(self)@.flushed(old(output)@),
            final(output)@ == Seq::<u8>::empty(),
    {
        if output.len() > 0 {
            self.advance(output.as_slice());
            output.clear();
        }
        assert(output@ =~= Seq::empty());
    }

    fn apply_one(
        &mut self,
        event: &TerminalStreamEvent,
        output: &mut Vec<u8>,
        effects: &mut Vec<EmulatorEffect>,
    ) -> (goes_on: bool)
        requires
            old(self).wf(),
            match event@ {
                StreamEvent::Resize { size, .. } => size.within_limits(),
                _ => true,
            },
        ensures
            final(self).wf(),
            (final(self)@, final(output)@, final(effects)@, goes_on) == old(self)@.event_applied(
                event@,
                old(output)@,
                old(effects)@,
            ),
    {
        let seq: u64 = event.seq();
        if seq <= self.last_seq {
            return true;
        }
        let expected: u64 = self.last_seq.saturating_add(1);
        if self.live && self.last_seq != 0 && seq != expected {
            effects.push(EmulatorEffect::SequenceGap { expected, actual: seq });
            return false;
        }
        self.last_seq = seq;
        self.dirty = true;
        let ghost reached = EmulatorView { last_seq: seq as int, dirty: true, ..old(self)@ };
        assert(self@ =~= reached);
        match event {
            TerminalStreamEvent::Output { bytes, .. } => {
                output.extend_from_slice(&**bytes);
                assert(output@ =~= old(output)@ + event@.output());
            },
            TerminalStreamEvent::Resize { size, .. } => {
                self.flush(output);
                if *size != self.size() {
                    proof {
                        lemma_after(self.screen@, ScreenOp::Resize(*size));
                    }
                    self.screen.resize(*size);
                    assert(self@ =~= reached.flushed(old(output)@).operated(
                        ScreenOp::Resize(*size),
                    ));
                }
            },
            TerminalStreamEvent::Exit { code, .. } => {
                self.flush(output);
                self.process = TerminalProcessState::Exited { code: *code };
                effects.push(EmulatorEffect::Exited { code: *code });
            },
        }
        true
    }

    /// Applies one ordered stream event. Out-of-order (duplicate or stale)
    /// events are skipped by sequence, which is what makes the
    /// replay/live handoff seamless.
    pub fn apply(&mut self, event: &TerminalStreamEvent) -> (effects: Vec<EmulatorEffect>)
        requires
            old(self).wf(),
            resizes_within_limits(seq![event@]),
        ensures
            final(self).wf(),
            (final(self)@, effects@) == old(self)@.applied(
                seq![event@],
                0,
                Seq::empty(),
                Seq::empty(),
            ),
    {
        let mut output: Vec<u8> = Vec::new();
        let mut effects: Vec<EmulatorEffect> = Vec::new();
        assert(seq![event@][0] == event@);
        assert(output@ =~= Seq::empty());
        assert(effects@ =~= Seq::empty());
        let _ = self.apply_one(event, &mut output, &mut effects);
        reveal_with_fuel(EmulatorView::applied, 2);
        self.flush(&mut output);
        effects
    }

    /// Applies an ordered batch, concatenating adjacent output events so a
    /// PTY burst reaches the parser in one piece.
    pub fn apply_batch(&mut self, events: &[TerminalStreamEvent]) -> (effects: Vec<EmulatorEffect>)
        requires
            old(self).wf(),
            resizes_within_limits(stream_events(events@)),
        ensures
            final(self).wf(),
            (final(self)@, effects@) == old(self)@.applied(
                stream_events(events@),
                0,
                Seq::empty(),
                Seq::empty(),
            ),
    {
        let mut output: Vec<u8> = Vec::new();
        let mut effects: Vec<EmulatorEffect> = Vec::new();
        let mut at: usize = 0;
        let ghost whole = old(self)@.applied(
            stream_events(events@),
            0,
            Seq::empty(),
            Seq::empty(),
        );
        assert(output@ =~= Seq::empty());
        assert(effects@ =~= Seq::empty());
        while at < events.len()
            invariant
                at <= events@.len(),
                self.wf(),
                resizes_within_limits(stream_events(events@)),
                whole == old(self)@.applied(
                    stream_events(events@),
                    0,
                    Seq::empty(),
                    Seq::empty(),
                ),
                whole == self@.applied(stream_events(events@), at as int, output@, effects@),
            decreases events@.len() - at,
        {
            assert(stream_events(events@)[at as int] == events@[at as int]@);
            if !self.apply_one(&events[at], &mut output, &mut effects) {
                self.flush(&mut output);
                return effects;
            }
            at = at + 1;
        }
        self.flush(&mut output);
        effects
    }

    /// Switches from replay to live: from now on, emulator query responses
    /// are kept for the PTY.
    pub fn start_live(&mut self)
        requires
            old(self).wf(),
        ensures
            final(self).wf(),
            final(self)@ == (EmulatorView { live: true, ..old(self)@ }),
    {
        self.live = true;
    }

    pub fn replaying(&self) -> (replaying: bool)
        ensures
            replaying == !self@.live,
    {
        !self.live
    }

    /// Returns and clears the local repaint bit.
    pub fn take_dirty(&mut self) -> (dirty: bool)
        requires
            old(self).wf(),
        ensures
            final(self).wf(),
            dirty == old(self)@.dirty,
            final(self)@ == (EmulatorView { dirty: false, ..old(self)@ }),
    {
        let dirty: bool = self.dirty;
        self.dirty = false;
        dirty
    }

    /// Drains pending emulator query responses that must be written to the
    /// PTY (DA/DSR/OSC 10/11/12 answers).
    pub fn pty_writes(&mut self) -> (writes: Vec<Vec<u8>>)
        requires
            old(self).wf(),
        ensures
            final(self).wf(),
            byte_strings(writes@) == old(self)@.writes,
            final(self)@ == (EmulatorView { writes: Seq::empty(), ..old(self)@ }),
    {
        let mut writes: Vec<Vec<u8>> = Vec::new();
        std::mem::swap(&mut writes, &mut self.writes);
        assert(byte_strings(self.writes@) =~= Seq::empty());
        writes
    }

    fn shape(&self) -> (shape: GridShape)
        ensures
            shape == self@.shape(),
    {
        read_shape(self.screen.grid())
    }

    pub fn size(&self) -> (size: TerminalSize)
        ensures
            size == self@.size(),
    {
        let shape: GridShape = self.shape();
        TerminalSize::new(shape.columns, shape.screen_lines)
    }

    pub fn terminal_id(&self) -> (id: TerminalId)
        ensures
            id == self@.terminal_id,
    {
        self.terminal_id
    }

    pub fn last_seq(&self) -> (seq: TerminalSeq)
        ensures
            seq == self@.last_seq,
    {
        self.last_seq
    }

    pub fn exited(&self) -> (code: Option<Option<i32>>)
        ensures
            code == match self@.process {
                TerminalProcessState::Running => None,
                TerminalProcessState::Exited { code } => Some(code),
            },
    {
        match self.process {
            TerminalProcessState::Running => None,
            TerminalProcessState::Exited { code } => Some(code),
        }
    }

    /// Current viewport position in the user-facing coordinate: 0 = bottom,
    /// positive = rows up into history. While browsing, this is deliberately
    /// independent from the grid's physical `display_offset`, which may grow
    /// as output is appended behind the pinned viewport.
    pub fn viewport_position(&self) -> (position: i64)
        ensures
            position == self@.viewport_position() as i64,
    {
        if self.viewport_pinned {
            self.pinned_viewport
        } else {
            self.shape().display_offset as i64
        }
    }

    /// Debug: grid state for diagnosing scroll/overscan issues.
    pub fn grid_debug(&self) -> (state: (usize, usize, usize, i32, i32))
        requires
            self@.countable(),
            self@.shape().screen_lines <= i32::MAX,
        ensures
            state == (
                self@.shape().display_offset,
                self@.shape().total_lines,
                self@.shape().screen_lines,
                -self@.shape().history() as i32,
                (self@.shape().screen_lines - 1) as i32,
            ),
    {
        let shape: GridShape = self.shape();
        let history: usize = shape.total_lines.saturating_sub(shape.screen_lines);
        (
            shape.display_offset,
            shape.total_lines,
            shape.screen_lines,
            -(history as i32),
            shape.screen_lines as i32 - 1,
        )
    }

    /// This is the number of retained rows in the grid, independent of the
    /// user-facing viewport coordinate while output is growing behind a pin.
    pub fn history_len(&self) -> (rows: i64)
        ensures
            rows == self@.shape().history() as i64,
    {
        let shape: GridShape = self.shape();
        shape.total_lines.saturating_sub(shape.screen_lines) as i64
    }

    fn trim_scrollback_to_configured_limit(&mut self)
        requires
            old(self).wf(),
        ensures
            final(self)@ == old(self)@.trimmed(),
            final(self).wf(),
            final(self)@.shape() == limited(old(self)@.shape(), old(self)@.scrollback_lines),
    {
        proof {
            lemma_after(self.screen@, ScreenOp::History(self.scrollback_lines as int));
        }
        self.screen.limit_history(self.scrollback_lines);
    }

    /// Scrolls by `delta` rows (positive = up into history).
    pub fn scroll_by(&mut self, delta: i64)
        requires
            old(self).wf(),
            old(self)@.countable(),
        ensures
            final(self).wf(),
            final(self)@ == old(self)@.scrolled_by(delta as int),
            // A downward scroll ends the temporary overflow of the history.
            old(self)@.pinned && delta < 0 ==> final(self)@.shape().history()
                <= old(self)@.scrollback_lines,
            // The display moves by as many lines, up where they are positive,
            // and stays within the history.
            delta > 0 ==> final(self)@.shape().history() == old(self)@.shape().history()
                || final(self)@.viewport_position() == 0,
            delta > 0 && !old(self)@.pinned ==> final(self)@.viewport_position() == min_of(
                old(self)@.display_offset() + delta,
                old(self)@.shape().history(),
            ) && final(self)@.display_offset() == final(self)@.viewport_position(),
            delta < 0 && !old(self)@.pinned ==> final(self)@.viewport_position() == min_of(
                max_of(old(self)@.display_offset() + delta, 0),
                old(self)@.shape().history(),
            ) && final(self)@.display_offset() == final(self)@.viewport_position(),
            delta > 0 && old(self)@.pinned && old(self)@.pinned_viewport
                == old(self)@.display_offset() ==> final(self)@.viewport_position() == min_of(
                old(self)@.display_offset() + delta,
                old(self)@.shape().history(),
            ),
            delta < 0 && old(self)@.pinned && old(self)@.display_offset()
                <= old(self)@.shape().history() ==> final(self)@.viewport_position() == max_of(
                min_of(old(self)@.display_offset(), old(self)@.scrollback_lines) + delta,
                0,
            ),
            final(self)@.pinned == (if delta == 0 {
                old(self)@.pinned
            } else {
                final(self)@.viewport_position() > 0
            }),
    {
        if delta == 0 {
            return;
        }
        if self.viewport_pinned && delta < 0 {
            self.trim_scrollback_to_configured_limit();
            self.pinned_viewport = self.shape().display_offset as i64;
        }
        let ghost ready = self@;
        let previous_display_offset: i64 = self.shape().display_offset as i64;
        let lines: i64 = clamp_i64(delta, i32::MIN as i64, i32::MAX as i64).min(
            i32::MAX as i64 - previous_display_offset,
        );
        proof {
            lemma_after(self.screen@, ScreenOp::Scroll(lines as int));
        }
        self.screen.scroll(lines as i32);
        assert(self@ =~= old(self)@.display_moved(delta as int));
        let display_offset: i64 = self.shape().display_offset as i64;
        let actual_delta: i64 = saturating_sub_i64(display_offset, previous_display_offset);
        if self.viewport_pinned {
            self.pinned_viewport = clamp_i64(
                saturating_add_i64(self.pinned_viewport, actual_delta),
                0,
                self.history_len(),
            );
        } else {
            self.pinned_viewport = display_offset;
            if display_offset > 0 {
                self.viewport_pinned = true;
            }
        }
        if self.viewport_pinned && self.pinned_viewport == 0 {
            // A relative scroll can reach the semantic bottom while the
            // physical grid is still offset by output that arrived during the
            // browse. Jump to the real live bottom in that case.
            self.scroll_to_bottom();
            return;
        }
        self.dirty = true;
    }

    /// Absolute scroll target in the viewport coordinate (0 = bottom,
    /// positive = up). Clamped to the available history.
    pub fn scroll_to(&mut self, target: i64)
        requires
            old(self).wf(),
            old(self)@.countable(),
        ensures
            final(self).wf(),
            final(self)@ == old(self)@.scrolled_to(target as int),
            target <= 0 ==> final(self)@.viewport_position() == 0 && final(self)@.display_offset()
                == 0,
            old(self)@.viewport_position() == old(self)@.display_offset() && target
                >= old(self)@.viewport_position() && old(self)@.display_offset()
                <= old(self)@.shape().history() ==> final(self)@.viewport_position() == min_of(
                target as int,
                old(self)@.shape().history(),
            ),
    {
        let target: i64 = target.max(0).min(self.history_len());
        if target == 0 {
            self.scroll_to_bottom();
            return;
        }
        if !self.viewport_pinned {
            self.viewport_pinned = true;
            self.pinned_viewport = self.shape().display_offset as i64;
        }
        let delta: i64 = target - self.viewport_position();
        if delta != 0 {
            self.scroll_by(delta);
        }
    }

    pub fn scroll_to_bottom(&mut self)
        requires
            old(self).wf(),
        ensures
            final(self).wf(),
            final(self)@ == old(self)@.at_live_bottom(),
            final(self)@.viewport_position() == 0,
            final(self)@.display_offset() == 0,
            final(self)@.shape().history() <= old(self)@.scrollback_lines,
    {
        self.trim_scrollback_to_configured_limit();
        self.viewport_pinned = false;
        self.pinned_viewport = 0;
        proof {
            lemma_after(self.screen@, ScreenOp::Bottom);
        }
        self.screen.scroll_to_bottom();
        self.dirty = true;
    }

    pub fn cursor_visible(&self) -> (visible: bool)
        ensures
            visible == cursor_shown(screen_mode(self@.screen)),
    {
        read_cursor_shown(self.screen.mode())
    }

    pub fn mouse_reporting(&self) -> (reporting: bool)
        ensures
            reporting == modes_of_bits(screen_mode(self@.screen)).mouse_reporting,
    {
        read_modes(self.screen.mode()).mouse_reporting
    }

    pub fn alternate_screen(&self) -> (alternate: bool)
        ensures
            alternate == modes_of_bits(screen_mode(self@.screen)).alternate_screen,
    {
        read_modes(self.screen.mode()).alternate_screen
    }

    /// Builds the renderable snapshot from the local grid. Row references
    /// are reused from `previous` when unchanged, so per-frame snapshots
    /// stay cheap during static content.
    pub fn snapshot(&self, previous: Option<&TerminalSnapshot>) -> (snapshot: TerminalSnapshot)
        requires
            self@.shape().fits(),
        ensures
            snapshot@ == self@.snapshot(),
    {
        let usable: Option<&TerminalSnapshot> = match previous {
            Some(previous) => if previous.terminal_id == self.terminal_id && previous.size
                == self.size() {
                Some(previous)
            } else {
                None
            },
            None => None,
        };
        TerminalSnapshot::from_term_with_previous(
            self.terminal_id,
            self.screen.grid(),
            self.screen.mode(),
            self.process,
            self.last_seq,
            self.viewport_position(),
            usable,
        )
    }

    /// The renderable snapshot, where the screen can be displayed.
    pub fn try_snapshot(&self, previous: Option<&TerminalSnapshot>) -> (snapshot: Option<
        TerminalSnapshot,
    >)
        requires
            self.wf(),
        ensures
            match snapshot {
                Some(snapshot) => self@.displayable() && snapshot@ == self@.snapshot(),
                None => !self@.displayable(),
            },
    {
        if TerminalSnapshot::grid_fits(self.screen.grid()) {
            Some(self.snapshot(previous))
        } else {
            None
        }
    }

    /// Whether line counts are within the emulator's line numbers, as
    /// scrolling needs.
    pub fn countable(&self) -> (countable: bool)
        ensures
            countable == self@.countable(),
    {
        let shape: GridShape = self.shape();
        shape.display_offset <= i32::MAX as usize && shape.total_lines <= i32::MAX as usize
    }

    /// Scrolls by `delta` rows where line counts admit it, and returns whether
    /// they do.
    pub fn try_scroll_by(&mut self, delta: i64) -> (scrolled: bool)
        requires
            old(self).wf(),
        ensures
            final(self).wf(),
            scrolled == old(self)@.countable(),
            final(self)@ == (if scrolled {
                old(self)@.scrolled_by(delta as int)
            } else {
                old(self)@
            }),
    {
        if self.countable() {
            self.scroll_by(delta);
            true
        } else {
            false
        }
    }

    /// Scrolls to a position where line counts admit it, and returns whether
    /// they do.
    pub fn try_scroll_to(&mut self, target: i64) -> (scrolled: bool)
        requires
            old(self).wf(),
        ensures
            final(self).wf(),
            scrolled == old(self)@.countable(),
            final(self)@ == (if scrolled {
                old(self)@.scrolled_to(target as int)
            } else {
                old(self)@
            }),
    {
        if self.countable() {
            self.scroll_to(target);
            true
        } else {
            false
        }
    }

    /// Process state for snapshots: the server's lifecycle is authoritative
    /// for metadata, but the emulator also knows when its child exited
    /// through the stream.
    pub fn process_state(&self) -> (process: TerminalProcessState)
        ensures
            process == self@.process,
    {
        self.process
    }

    /// True when the viewport is pinned to the bottom (output auto-scrolls).
    pub fn at_bottom(&self) -> (bottom: bool)
        ensures
            bottom == (self@.display_offset() == 0),
    {
        self.shape().display_offset == 0
    }

    /// Sets the viewport pin. While pinned, output may advance the grid's
    /// physical `display_offset`, but the semantic user position remains
    /// unchanged until the user scrolls again.
    pub fn set_viewport_pinned(&mut self, pinned: bool)
        requires
            old(self).wf(),
            old(self)@.countable(),
        ensures
            final(self).wf(),
            final(self)@ == old(self)@.with_pin(pinned),
            final(self)@.pinned == pinned,
            pinned ==> final(self)@.viewport_position() == old(self)@.viewport_position(),
            pinned && old(self)@.shape().history() <= MAX_HISTORY_LINES
                ==> final(self)@.shape().total_lines == old(self)@.shape().total_lines,
            !pinned ==> final(self)@.shape().history() <= old(self)@.scrollback_lines,
    {
        if pinned {
            if !self.viewport_pinned {
                self.pinned_viewport = self.shape().display_offset as i64;
            }
            self.viewport_pinned = true;
            proof {
                lemma_after(self.screen@, ScreenOp::History(MAX_HISTORY_LINES as int));
            }
            self.screen.limit_history(MAX_HISTORY_LINES);
        } else {
            self.trim_scrollback_to_configured_limit();
            self.viewport_pinned = false;
            self.pinned_viewport = 0;
        }
    }

    /// Sets how many lines are kept above the screen.
    pub fn set_scrollback_lines(&mut self, lines: usize)
        requires
            old(self).wf(),
        ensures
            final(self).wf(),
            final(self)@ == old(self)@.with_limit(lines as int),
            !old(self)@.pinned ==> final(self)@.shape().history() <= lines,
            old(self)@.pinned ==> final(self)@.shape() == old(self)@.shape(),
            lines <= MAX_HISTORY_LINES ==> final(self)@.scrollback_lines == lines,
    {
        self.scrollback_lines = lines.min(MAX_HISTORY_LINES);
        if !self.viewport_pinned {
            self.trim_scrollback_to_configured_limit();
        }
    }

    /// Protects the scrollback from clear sequences, or stops doing so and
    /// interprets what waited.
    pub fn set_scrollback_protected(&mut self, protected: bool)
        requires
            old(self).wf(),
        ensures
            final(self).wf(),
            final(self)@ == old(self)@.with_protection(protected),
    {
        if self.scrollback_protected == protected {
            return;
        }
        self.scrollback_protected = protected;
        if !protected {
            let mut pending: Vec<u8> = Vec::new();
            std::mem::swap(&mut pending, &mut self.pending_scrollback_clear);
            assert(self.pending_scrollback_clear@ =~= Seq::empty());
            self.advance_unfiltered(pending.as_slice());
        }
        self.dirty = true;
    }
}

proof fn lemma_waiting_is_short(bytes: Seq<u8>)
    ensures
        without_clears(bytes).1.len() < 4,
    decreases bytes.len(),
{
    if starts_clear(bytes) {
    } else if clears(bytes) {
        lemma_waiting_is_short(bytes.skip(4));
    } else {
        lemma_waiting_is_short(bytes.skip(1));
    }
}

/// A limit of the history, as far as the lines can be numbered.
pub open spec fn numbered(lines: int) -> int {
    min_of(lines, MAX_HISTORY_LINES as int)
}

/// The state of a new emulator.
pub open spec fn initial_state(
    terminal_id: TerminalId,
    size: TerminalSize,
    scrollback_lines: int,
    theme: TerminalTheme,
    protected: bool,
) -> EmulatorView {
    EmulatorView {
        terminal_id,
        scrollback_lines: numbered(scrollback_lines),
        theme,
        screen: ScreenLog { size, history: numbered(scrollback_lines), operations: Seq::empty() },
        live: false,
        last_seq: 0,
        process: TerminalProcessState::Running,
        dirty: false,
        pinned: false,
        pinned_viewport: 0,
        protected,
        waiting: Seq::empty(),
        writes: Seq::empty(),
    }
}

proof fn lemma_applied_from(
    emulator: EmulatorView,
    events: Seq<StreamEvent>,
    from: int,
    at: int,
    output: Seq<u8>,
    effects: Seq<EmulatorEffect>,
)
    requires
        0 <= from <= events.len(),
        0 <= at,
    ensures
        emulator.applied(events, from + at, output, effects) == emulator.applied(
            events.skip(from),
            at,
            output,
            effects,
        ),
    decreases events.len() - from - at,
{
    if from + at < events.len() {
        assert(events.skip(from)[at] == events[from + at]);
        let (next, collected, reported, goes_on) = emulator.event_applied(
            events[from + at],
            output,
            effects,
        );
        if goes_on {
            lemma_applied_from(next, events, from, at + 1, collected, reported);
        }
    }
}

proof fn lemma_skipped_from(
    emulator: EmulatorView,
    events: Seq<StreamEvent>,
    at: int,
    fresh: int,
    effects: Seq<EmulatorEffect>,
)
    requires
        0 <= at <= fresh <= events.len(),
        forall|i: int| at <= i < fresh ==> (#[trigger] events[i]).seq() <= emulator.last_seq,
    ensures
        emulator.applied(events, at, Seq::empty(), effects) == emulator.applied(
            events,
            fresh,
            Seq::empty(),
            effects,
        ),
    decreases fresh - at,
{
    if at < fresh {
        assert(events[at].seq() <= emulator.last_seq);
        lemma_skipped_from(emulator, events, at + 1, fresh, effects);
    }
}

/// A replay may overlap the live tail: events that were applied before change
/// nothing and report nothing, and what follows them is applied as if they
/// were not there.
pub proof fn overlapping_events_are_skipped(
    emulator: EmulatorView,
    overlap: Seq<StreamEvent>,
    fresh: Seq<StreamEvent>,
    effects: Seq<EmulatorEffect>,
)
    requires
        forall|i: int|
            0 <= i < overlap.len() ==> (#[trigger] overlap[i]).seq() <= emulator.last_seq,
    ensures
        emulator.applied(overlap + fresh, 0, Seq::empty(), effects) == emulator.applied(
            fresh,
            0,
            Seq::empty(),
            effects,
        ),
{
    let events = overlap + fresh;
    assert forall|i: int| 0 <= i < overlap.len() implies (#[trigger] events[i]).seq()
        <= emulator.last_seq by {
        assert(events[i] == overlap[i]);
    }
    lemma_skipped_from(emulator, events, 0, overlap.len() as int, effects);
    lemma_applied_from(emulator, events, overlap.len() as int, 0, Seq::empty(), effects);
    assert(events.skip(overlap.len() as int) =~= fresh);
}

impl EmulatorView {
    /// The two differ at most in whether they are live and in the answers
    /// that wait.
    pub open spec fn shows_as(self, other: EmulatorView) -> bool {
        other == (EmulatorView { live: other.live, writes: other.writes, ..self })
    }
}

/// What is replayed and what came live show the same: from the same state, a
/// replaying and a live emulator that are fed the same stream report the same
/// and display the same. The stream has no gaps of its own and none to what
/// was applied before.
pub proof fn replay_and_live_show_the_same(
    replaying: EmulatorView,
    live: EmulatorView,
    events: Seq<StreamEvent>,
    at: int,
    output: Seq<u8>,
    effects: Seq<EmulatorEffect>,
)
    requires
        0 <= at,
        replaying.shows_as(live),
        !replaying.live,
        live.live,
        numbered_in_a_row(events),
        live.last_seq != 0 && at < events.len() ==> events[at].seq() <= live.last_seq + 1,
    ensures
        ({
            let (replayed, replay_effects) = replaying.applied(events, at, output, effects);
            let (followed, live_effects) = live.applied(events, at, output, effects);
            &&& replay_effects == live_effects
            &&& replayed.shows_as(followed)
            &&& replayed.snapshot() == followed.snapshot()
        }),
    decreases events.len() - at,
{
    if at < events.len() {
        let event = events[at];
        let (next, collected, reported, goes_on) = live.event_applied(event, output, effects);
        let (replayed, _, _, _) = replaying.event_applied(event, output, effects);
        assert(event.seq() > live.last_seq ==> !live.has_gap(event.seq() as int));
        assert(goes_on);
        assert(replayed.shows_as(next));
        assert(at + 1 < events.len() ==> events[at + 1].seq() == event.seq() + 1);
        replay_and_live_show_the_same(replayed, next, events, at + 1, collected, reported);
    }
}

/// A live emulator that misses a sequence applies nothing of what follows the
/// gap and asks for a resync.
pub proof fn a_live_gap_is_reported(emulator: EmulatorView, events: Seq<StreamEvent>)
    requires
        events.len() > 0,
        emulator.live,
        emulator.last_seq > 0,
        events[0].seq() > emulator.last_seq + 1,
    ensures
        emulator.applied(events, 0, Seq::empty(), Seq::empty()) == (
            emulator,
            seq![
                EmulatorEffect::SequenceGap {
                    expected: (emulator.last_seq + 1) as u64,
                    actual: events[0].seq(),
                },
            ],
        ),
{
    let gap = EmulatorEffect::SequenceGap {
        expected: (emulator.last_seq + 1) as u64,
        actual: events[0].seq(),
    };
    assert(Seq::<EmulatorEffect>::empty().push(gap) =~= seq![gap]);
}

proof fn lemma_flushing(emulator: EmulatorView, output: Seq<u8>)
    ensures
        emulator.flushed(output).pinned == emulator.pinned,
        emulator.flushed(output).pinned_viewport == emulator.pinned_viewport,
        emulator.flushed(output).last_seq == emulator.last_seq,
        emulator.flushed(output).live == emulator.live,
        !emulator.live ==> emulator.flushed(output).writes == emulator.writes,
{
}

/// Historical queries never write to the live PTY: a replaying emulator keeps
/// none of its answers, whatever it is fed.
pub proof fn replay_writes_nothing(
    emulator: EmulatorView,
    events: Seq<StreamEvent>,
    at: int,
    output: Seq<u8>,
    effects: Seq<EmulatorEffect>,
)
    requires
        0 <= at,
        !emulator.live,
    ensures
        emulator.applied(events, at, output, effects).0.writes == emulator.writes,
    decreases events.len() - at,
{
    lemma_flushing(emulator, output);
    if at < events.len() {
        let (next, collected, reported, goes_on) = emulator.event_applied(
            events[at],
            output,
            effects,
        );
        let reached = EmulatorView { last_seq: events[at].seq() as int, dirty: true, ..emulator };
        lemma_flushing(reached, output);
        lemma_flushing(next, collected);
        if goes_on {
            replay_writes_nothing(next, events, at + 1, collected, reported);
        }
    }
}

/// Whatever the stream brings, a pinned viewport stays where the user put it,
/// and the last sequence never goes back.
pub proof fn a_pinned_viewport_does_not_move(
    emulator: EmulatorView,
    events: Seq<StreamEvent>,
    at: int,
    output: Seq<u8>,
    effects: Seq<EmulatorEffect>,
)
    requires
        0 <= at,
        emulator.pinned,
    ensures
        emulator.applied(events, at, output, effects).0.pinned,
        emulator.applied(events, at, output, effects).0.viewport_position()
            == emulator.viewport_position(),
        emulator.applied(events, at, output, effects).0.last_seq >= emulator.last_seq,
    decreases events.len() - at,
{
    lemma_flushing(emulator, output);
    if at < events.len() {
        let (next, collected, reported, goes_on) = emulator.event_applied(
            events[at],
            output,
            effects,
        );
        let reached = EmulatorView { last_seq: events[at].seq() as int, dirty: true, ..emulator };
        lemma_flushing(reached, output);
        lemma_flushing(next, collected);
        if goes_on {
            a_pinned_viewport_does_not_move(next, events, at + 1, collected, reported);
        }
    }
}

proof fn lemma_interpreting_keeps_the_limit(emulator: EmulatorView, bytes: Seq<u8>)
    ensures
        emulator.interpreted(bytes).screen.limit() == emulator.screen.limit(),
{
    lemma_after(emulator.screen, ScreenOp::Output(emulator.screen.place().tamed(bytes)));
}

proof fn lemma_pinned_output(emulator: EmulatorView, bytes: Seq<u8>)
    requires
        emulator.pinned,
    ensures
        emulator.advanced(bytes).screen.limit() == MAX_HISTORY_LINES,
{
    let roused = EmulatorView { dirty: emulator.dirty || bytes.len() > 0, ..emulator };
    lemma_after(emulator.screen, ScreenOp::History(MAX_HISTORY_LINES as int));
    let roomy = roused.operated(ScreenOp::History(MAX_HISTORY_LINES as int));
    let (kept, waiting) = without_clears(emulator.waiting + bytes);
    lemma_interpreting_keeps_the_limit(EmulatorView { waiting, ..roomy }, kept);
    let free = EmulatorView { waiting: Seq::empty(), ..roomy };
    lemma_interpreting_keeps_the_limit(free, emulator.waiting);
    lemma_interpreting_keeps_the_limit(free.interpreted(emulator.waiting), bytes);
}

/// The rows behind a browsing viewport are kept: output that comes while the
/// viewport is pinned raises the limit of the history to the most lines that
/// there can be, and nothing that the stream brings lowers it again, a resize
/// included.
pub proof fn a_pinned_viewport_keeps_its_history(
    emulator: EmulatorView,
    events: Seq<StreamEvent>,
    at: int,
    output: Seq<u8>,
    effects: Seq<EmulatorEffect>,
)
    requires
        0 <= at,
        emulator.pinned,
        emulator.screen.limit() <= MAX_HISTORY_LINES,
    ensures
        emulator.screen.limit() <= emulator.applied(events, at, output, effects).0.screen.limit()
            <= MAX_HISTORY_LINES,
        at >= events.len() && output.len() > 0 ==> emulator.applied(
            events,
            at,
            output,
            effects,
        ).0.screen.limit() == MAX_HISTORY_LINES,
    decreases events.len() - at,
{
    lemma_pinned_output(emulator, output);
    if at < events.len() {
        let (next, collected, reported, goes_on) = emulator.event_applied(
            events[at],
            output,
            effects,
        );
        let reached = EmulatorView { last_seq: events[at].seq() as int, dirty: true, ..emulator };
        lemma_flushing(reached, output);
        lemma_pinned_output(reached, output);
        if let StreamEvent::Resize { size, .. } = events[at] {
            lemma_after(reached.flushed(output).screen, ScreenOp::Resize(size));
        }
        if goes_on {
            a_pinned_viewport_keeps_its_history(next, events, at + 1, collected, reported);
        } else {
            lemma_pinned_output(next, collected);
        }
    }
}

impl EmulatorView {
    /// The emulator after the wire events from `at` on, each applied by
    /// itself. Output takes the geometry of the last resize; an event whose
    /// payload is no base64 is passed over.
    pub open spec fn rebuilt(
        self,
        events: Seq<WireEvent>,
        at: int,
        size: TerminalSize,
    ) -> EmulatorView
        decreases events.len() - at,
    {
        if at < 0 || at >= events.len() {
            self
        } else {
            match event_of_wire(events[at], size) {
                Some(event) => {
                    let next = match event {
                        StreamEvent::Resize { size, .. } => size,
                        _ => size,
                    };
                    self.applied(seq![event], 0, Seq::empty(), Seq::empty()).0.rebuilt(
                        events,
                        at + 1,
                        next,
                    )
                },
                None => self.rebuilt(events, at + 1, size),
            }
        }
    }
}

/// The emulator that a replay leads to.
pub open spec fn replayed(replay: ReplayView, scrollback_lines: int) -> EmulatorView {
    initial_state(
        replay.terminal_id,
        replay.size,
        scrollback_lines,
        TerminalTheme::standard(),
        false,
    ).rebuilt(replay.events, 0, replay.size)
}

/// Rebuilds the screen from a raw replay: the emulator applies the events
/// from a blank screen of the replay-start geometry. The process state is
/// the one that the server reports. There is no snapshot where the screen
/// cannot be displayed.
pub fn snapshot_from_replay(replay: &TerminalReplay, scrollback_lines: usize) -> (snapshot: Option<
    TerminalSnapshot,
>)
    requires
        replay.size.within_limits(),
    ensures
        ({
            let emulator = replayed(replay@, scrollback_lines as int);
            match snapshot {
                Some(snapshot) => emulator.displayable() && snapshot@ == (SnapshotView {
                    process: replay.process,
                    ..emulator.snapshot()
                }),
                None => !emulator.displayable(),
            }
        }),
{
    let mut emulator: TerminalEmulator = TerminalEmulator::new(
        replay.terminal_id,
        replay.size,
        scrollback_lines,
    );
    let mut size: TerminalSize = replay.size;
    let mut at: usize = 0;
    let ghost events = replay@.events;
    let ghost whole = emulator@.rebuilt(events, 0, size);
    while at < replay.events.len()
        invariant
            emulator.wf(),
            at <= replay.events@.len(),
            events == replay@.events,
            whole == emulator@.rebuilt(events, at as int, size),
        decreases replay.events@.len() - at,
    {
        assert(events[at as int] == replay.events@[at as int]@);
        if let Some(event) = TerminalStreamEvent::from_wire(&replay.events[at], size) {
            if let TerminalStreamEvent::Resize { size: next, .. } = &event {
                size = *next;
            }
            let _ = emulator.apply(&event);
        }
        at = at + 1;
    }
    match emulator.try_snapshot(None) {
        Some(snapshot) => {
            let mut snapshot: TerminalSnapshot = snapshot;
            snapshot.process = replay.process;
            Some(snapshot)
        },
        None => None,
    }
}

/// The screen has the size that it was given last.
pub proof fn the_screen_has_its_size(emulator: TerminalEmulator)
    requires
        emulator.wf(),
    ensures
        emulator@.size() == emulator@.screen.geometry(),
{
}

impl EmulatorView {
    /// The two differ at most in how the same output was cut into pieces and
    /// in the answers that wait: the screens were shown the same, byte by byte
    /// and with the same resizes in the same places.
    pub open spec fn rebuilt_as(self, other: EmulatorView) -> bool {
        &&& self.screen.steps() == other.screen.steps()
        &&& self.screen.output() == other.screen.output()
        &&& self.screen.geometry() == other.screen.geometry()
        &&& self.screen.limit() == other.screen.limit()
        &&& self.screen.place() == other.screen.place()
        &&& self.screen.size == other.screen.size
        &&& self.screen.history == other.screen.history
        &&& other == (EmulatorView { screen: other.screen, writes: other.writes, ..self })
    }

    /// What output reaches the screen, before its colours lose digits: what
    /// waited comes first, and protected scrollback is not cleared.
    spec fn let_through(self, bytes: Seq<u8>) -> Seq<u8> {
        if self.protected {
            without_clears(self.waiting + bytes).0
        } else {
            self.waiting + bytes
        }
    }

    /// What waits behind output.
    spec fn held_back(self, bytes: Seq<u8>) -> Seq<u8> {
        if self.protected {
            without_clears(self.waiting + bytes).1
        } else {
            Seq::empty()
        }
    }
}

proof fn lemma_byte_steps(front: Seq<u8>, back: Seq<u8>)
    ensures
        byte_steps(front + back) == byte_steps(front) + byte_steps(back),
{
    assert(byte_steps(front + back) =~= byte_steps(front) + byte_steps(back));
}

proof fn lemma_after_all_pieces(place: Place, front: Seq<u8>, back: Seq<u8>)
    ensures
        place.after_all(front + back) == place.after_all(front).after_all(back),
    decreases back.len(),
{
    if back.len() == 0 {
        assert(front + back =~= front);
    } else {
        lemma_after_all_pieces(place, front, back.drop_last());
        assert((front + back).drop_last() =~= front + back.drop_last());
    }
}

proof fn lemma_interpreted(emulator: EmulatorView, bytes: Seq<u8>)
    ensures
        ({
            let after = emulator.interpreted(bytes);
            let tamed = emulator.screen.place().tamed(bytes);
            &&& after.screen.steps() == emulator.screen.steps() + byte_steps(tamed)
            &&& after.screen.output() == emulator.screen.output() + tamed
            &&& after.screen.geometry() == emulator.screen.geometry()
            &&& after.screen.limit() == emulator.screen.limit()
            &&& after.screen.place() == emulator.screen.place().after_all(tamed)
            &&& after.screen.size == emulator.screen.size
            &&& after.screen.history == emulator.screen.history
            &&& after == (EmulatorView { screen: after.screen, writes: after.writes, ..emulator })
        }),
{
    let tamed = emulator.screen.place().tamed(bytes);
    lemma_after(emulator.screen, ScreenOp::Output(tamed));
    if bytes.len() == 0 {
        assert(tamed =~= Seq::empty());
        assert(byte_steps(tamed) =~= Seq::empty());
        assert(emulator.screen.steps() + byte_steps(tamed) =~= emulator.screen.steps());
        assert(emulator.screen.output() + tamed =~= emulator.screen.output());
    }
}

proof fn lemma_advanced(emulator: EmulatorView, bytes: Seq<u8>)
    ensures
        ({
            let after = emulator.advanced(bytes);
            let place = emulator.screen.place();
            let tamed = place.tamed(emulator.let_through(bytes));
            &&& after.screen.steps() == emulator.screen.steps() + byte_steps(tamed)
            &&& after.screen.output() == emulator.screen.output() + tamed
            &&& after.screen.geometry() == emulator.screen.geometry()
            &&& after.screen.limit() == if emulator.pinned {
                MAX_HISTORY_LINES as int
            } else {
                emulator.screen.limit()
            }
            &&& after.screen.place() == place.after_all(tamed)
            &&& after.screen.size == emulator.screen.size
            &&& after.screen.history == emulator.screen.history
            &&& after == (EmulatorView {
                screen: after.screen,
                writes: after.writes,
                dirty: emulator.dirty || bytes.len() > 0,
                waiting: emulator.held_back(bytes),
                ..emulator
            })
        }),
{
    let roused = EmulatorView { dirty: emulator.dirty || bytes.len() > 0, ..emulator };
    lemma_after(emulator.screen, ScreenOp::History(MAX_HISTORY_LINES as int));
    assert(emulator.screen.steps() + Seq::<ScreenOp>::empty() =~= emulator.screen.steps());
    let roomy = if emulator.pinned {
        roused.operated(ScreenOp::History(MAX_HISTORY_LINES as int))
    } else {
        roused
    };
    if emulator.protected {
        let (kept, waiting) = without_clears(emulator.waiting + bytes);
        lemma_interpreted(EmulatorView { waiting, ..roomy }, kept);
    } else {
        let free = EmulatorView { waiting: Seq::empty(), ..roomy };
        let place = emulator.screen.place();
        let first = place.tamed(emulator.waiting);
        let second = place.after_all(first).tamed(bytes);
        lemma_interpreted(free, emulator.waiting);
        lemma_interpreted(free.interpreted(emulator.waiting), bytes);
        digits_are_counted_across_pieces(place, emulator.waiting, bytes);
        lemma_byte_steps(first, second);
        lemma_after_all_pieces(place, first, second);
        assert(emulator.screen.steps() + byte_steps(first) + byte_steps(second)
            =~= emulator.screen.steps() + byte_steps(first + second));
        assert(emulator.screen.output() + first + second =~= emulator.screen.output() + (first
            + second));
    }
}

proof fn lemma_flushed_alike(one: EmulatorView, other: EmulatorView, output: Seq<u8>)
    requires
        one.rebuilt_as(other),
    ensures
        one.flushed(output).rebuilt_as(other.flushed(output)),
{
    lemma_advanced(one, output);
    lemma_advanced(other, output);
}

proof fn lemma_flushed_in_pieces(emulator: EmulatorView, front: Seq<u8>, back: Seq<u8>)
    ensures
        emulator.flushed(front + back).rebuilt_as(emulator.flushed(front).flushed(back)),
{
    if front.len() == 0 {
        assert(front + back =~= back);
    } else if back.len() == 0 {
        assert(front + back =~= front);
    } else {
        let between = emulator.advanced(front);
        let place = emulator.screen.place();
        let first = emulator.let_through(front);
        let second = between.let_through(back);
        lemma_advanced(emulator, front + back);
        lemma_advanced(emulator, front);
        lemma_advanced(between, back);
        assert(emulator.waiting + (front + back) =~= (emulator.waiting + front) + back);
        clears_are_found_across_pieces(emulator.waiting + front, back);
        if !emulator.protected {
            assert(between.waiting + back =~= back);
        }
        assert(emulator.let_through(front + back) == first + second);
        let tamed = place.tamed(first);
        let more = place.after_all(tamed).tamed(second);
        digits_are_counted_across_pieces(place, first, second);
        lemma_byte_steps(tamed, more);
        lemma_after_all_pieces(place, tamed, more);
        assert(emulator.screen.steps() + byte_steps(tamed) + byte_steps(more)
            =~= emulator.screen.steps() + byte_steps(tamed + more));
        assert(emulator.screen.output() + tamed + more =~= emulator.screen.output() + (tamed
            + more));
    }
}

/// The effects that an event adds do not depend on those before it.
proof fn lemma_effects_add(
    emulator: EmulatorView,
    events: Seq<StreamEvent>,
    at: int,
    output: Seq<u8>,
    effects: Seq<EmulatorEffect>,
)
    requires
        0 <= at,
    ensures
        emulator.applied(events, at, output, effects).0 == emulator.applied(
            events,
            at,
            output,
            Seq::empty(),
        ).0,
        emulator.applied(events, at, output, effects).1 == effects + emulator.applied(
            events,
            at,
            output,
            Seq::empty(),
        ).1,
    decreases events.len() - at,
{
    if at < events.len() {
        let none = Seq::<EmulatorEffect>::empty();
        let (next, collected, reported, goes_on) = emulator.event_applied(
            events[at],
            output,
            effects,
        );
        let (_, _, alone, _) = emulator.event_applied(events[at], output, none);
        assert(reported =~= effects + alone);
        if goes_on {
            lemma_effects_add(next, events, at + 1, collected, reported);
            lemma_effects_add(next, events, at + 1, collected, alone);
            let rest = next.applied(events, at + 1, collected, none).1;
            assert((effects + alone) + rest =~= effects + (alone + rest));
        }
    } else {
        assert(effects + Seq::<EmulatorEffect>::empty() =~= effects);
    }
}

proof fn lemma_applied_alike(
    one: EmulatorView,
    collected: Seq<u8>,
    other: EmulatorView,
    gathered: Seq<u8>,
    events: Seq<StreamEvent>,
    at: int,
    effects: Seq<EmulatorEffect>,
)
    requires
        0 <= at,
        one.flushed(collected).rebuilt_as(other.flushed(gathered)),
        one.dirty == other.dirty,
    ensures
        one.applied(events, at, collected, effects).0.rebuilt_as(
            other.applied(events, at, gathered, effects).0,
        ),
        one.applied(events, at, collected, effects).1 == other.applied(
            events,
            at,
            gathered,
            effects,
        ).1,
    decreases events.len() - at,
{
    lemma_advanced(one, collected);
    lemma_advanced(other, gathered);
    if at < events.len() {
        let event = events[at];
        if event.seq() <= one.last_seq {
            lemma_applied_alike(one, collected, other, gathered, events, at + 1, effects);
        } else if !one.has_gap(event.seq() as int) {
            let seq = event.seq() as int;
            let reached = EmulatorView { last_seq: seq, dirty: true, ..one };
            let there = EmulatorView { last_seq: seq, dirty: true, ..other };
            lemma_advanced(reached, collected);
            lemma_advanced(there, gathered);
            assert(reached.flushed(collected).rebuilt_as(there.flushed(gathered)));
            match event {
                StreamEvent::Output { bytes, .. } => {
                    lemma_flushed_in_pieces(reached, collected, bytes);
                    lemma_flushed_in_pieces(there, gathered, bytes);
                    lemma_flushed_alike(
                        reached.flushed(collected),
                        there.flushed(gathered),
                        bytes,
                    );
                    lemma_applied_alike(
                        reached,
                        collected + bytes,
                        there,
                        gathered + bytes,
                        events,
                        at + 1,
                        effects,
                    );
                },
                StreamEvent::Resize { size, .. } => {
                    let (next, none, _, _) = one.event_applied(event, collected, effects);
                    let (step, _, _, _) = other.event_applied(event, gathered, effects);
                    lemma_after(reached.flushed(collected).screen, ScreenOp::Resize(size));
                    lemma_after(there.flushed(gathered).screen, ScreenOp::Resize(size));
                    assert(next.rebuilt_as(step));
                    lemma_applied_alike(next, none, step, none, events, at + 1, effects);
                },
                StreamEvent::Exit { .. } => {
                    let (next, none, reported, _) = one.event_applied(event, collected, effects);
                    let (step, _, _, _) = other.event_applied(event, gathered, effects);
                    lemma_applied_alike(next, none, step, none, events, at + 1, reported);
                },
            }
        }
    }
}

proof fn lemma_applied_in_pieces(
    emulator: EmulatorView,
    front: Seq<StreamEvent>,
    back: Seq<StreamEvent>,
    at: int,
    output: Seq<u8>,
    effects: Seq<EmulatorEffect>,
)
    requires
        0 <= at <= front.len(),
        forall|i: int|
            0 <= i < emulator.applied(front, at, output, effects).1.len() ==> !(
            #[trigger] emulator.applied(front, at, output, effects).1[i] is SequenceGap),
    ensures
        ({
            let (middle, reported) = emulator.applied(front, at, output, effects);
            let (cut, cut_effects) = middle.applied(back, 0, Seq::empty(), reported);
            let (whole, whole_effects) = emulator.applied(front + back, at, output, effects);
            &&& whole.rebuilt_as(cut)
            &&& whole_effects == cut_effects
        }),
    decreases front.len() - at,
{
    let events = front + back;
    if at < front.len() {
        assert(events[at] == front[at]);
        let (next, collected, reported, goes_on) = emulator.event_applied(
            front[at],
            output,
            effects,
        );
        if goes_on {
            lemma_applied_in_pieces(next, front, back, at + 1, collected, reported);
        } else {
            assert(reported.last() is SequenceGap);
            assert(emulator.applied(front, at, output, effects).1[reported.len() - 1]
                is SequenceGap);
        }
    } else {
        let middle = emulator.flushed(output);
        lemma_advanced(emulator, output);
        lemma_applied_from(emulator, events, front.len() as int, 0, output, effects);
        assert(events.skip(front.len() as int) =~= back);
        if output.len() == 0 || emulator.dirty {
            lemma_applied_alike(emulator, output, middle, Seq::empty(), back, 0, effects);
        } else {
            lemma_roused(emulator, back, 0, output, effects);
            let roused = EmulatorView { dirty: true, ..emulator };
            lemma_advanced(roused, output);
            lemma_applied_alike(roused, output, middle, Seq::empty(), back, 0, effects);
        }
    }
}

/// Collected output makes an emulator dirty in any case.
proof fn lemma_roused(
    emulator: EmulatorView,
    events: Seq<StreamEvent>,
    at: int,
    output: Seq<u8>,
    effects: Seq<EmulatorEffect>,
)
    requires
        0 <= at,
        output.len() > 0,
    ensures
        emulator.applied(events, at, output, effects) == (EmulatorView {
            dirty: true,
            ..emulator
        }).applied(events, at, output, effects),
    decreases events.len() - at,
{
    let roused = EmulatorView { dirty: true, ..emulator };
    assert(emulator.advanced(output) =~= roused.advanced(output));
    if at < events.len() {
        if events[at].seq() <= emulator.last_seq {
            lemma_roused(emulator, events, at + 1, output, effects);
        }
    }
}

/// It makes no difference how a stream is cut into batches: applying one batch
/// and another one behind it rebuilds the same screen, and reports the same,
/// as applying both at once. A gap ends a batch, so that what stands behind one
/// is another matter.
pub proof fn batches_may_be_cut_anywhere(
    emulator: EmulatorView,
    front: Seq<StreamEvent>,
    back: Seq<StreamEvent>,
)
    requires
        ({
            let (_, effects) = emulator.applied(front, 0, Seq::empty(), Seq::empty());
            forall|i: int| 0 <= i < effects.len() ==> !(#[trigger] effects[i] is SequenceGap)
        }),
    ensures
        ({
            let (middle, first) = emulator.applied(front, 0, Seq::empty(), Seq::empty());
            let (cut, second) = middle.applied(back, 0, Seq::empty(), Seq::empty());
            let (whole, effects) = emulator.applied(front + back, 0, Seq::empty(), Seq::empty());
            &&& whole.rebuilt_as(cut)
            &&& effects == first + second
        }),
{
    let (middle, first) = emulator.applied(front, 0, Seq::empty(), Seq::empty());
    lemma_applied_in_pieces(emulator, front, back, 0, Seq::empty(), Seq::empty());
    lemma_effects_add(middle, back, 0, Seq::empty(), first);
}

/// The event is the next one for the emulator: newer than what it has applied
/// and not beyond a gap.
pub open spec fn is_next(emulator: EmulatorView, seq: int) -> bool {
    &&& seq > emulator.last_seq
    &&& emulator.live && emulator.last_seq != 0 ==> seq == emulator.last_seq + 1
}

/// Output reaches the screen, every byte of it and behind what was there, at
/// the size that the screen has; nothing is reported of it. Scrollback is not
/// protected here, so that nothing is held back, and the colours are within
/// what the emulator can count.
pub proof fn output_reaches_the_screen(
    emulator: EmulatorView,
    seq: u64,
    size: TerminalSize,
    bytes: Seq<u8>,
)
    requires
        is_next(emulator, seq as int),
        !emulator.protected,
        emulator.waiting.len() == 0,
        emulator.screen.place().colors_fit(bytes),
    ensures
        ({
            let event = StreamEvent::Output { seq, size, bytes };
            let (after, effects) = emulator.applied(seq![event], 0, Seq::empty(), Seq::empty());
            &&& after.screen.output() == emulator.screen.output() + bytes
            &&& after.screen.steps().len() == emulator.screen.steps().len() + bytes.len()
            &&& after.screen.steps().take(emulator.screen.steps().len() as int)
                == emulator.screen.steps()
            &&& forall|i: int|
                0 <= i < bytes.len() ==> after.screen.steps()[emulator.screen.steps().len() + i]
                    == ScreenOp::Output(seq![#[trigger] bytes[i]])
            &&& after.screen.geometry() == emulator.screen.geometry()
            &&& after.last_seq == seq
            &&& after.process == emulator.process
            &&& after.viewport_position() == emulator.viewport_position() || !emulator.pinned
            &&& after.dirty
            &&& effects.len() == 0
        }),
{
    let event = StreamEvent::Output { seq, size, bytes };
    reveal_with_fuel(EmulatorView::applied, 2);
    assert(seq![event][0] == event);
    let reached = EmulatorView { last_seq: seq as int, dirty: true, ..emulator };
    let none = Seq::<u8>::empty();
    assert(none + bytes =~= bytes);
    assert(reached.waiting + bytes =~= bytes);
    lemma_advanced(reached, bytes);
    proper_output_is_kept(emulator.screen.place(), bytes);
    let after = reached.flushed(bytes);
    if bytes.len() == 0 {
        assert(emulator.screen.output() + bytes =~= emulator.screen.output());
    }
    let before = emulator.screen.steps();
    assert(after.screen.steps() =~= before + byte_steps(bytes));
    assert(after.screen.steps().take(before.len() as int) =~= before);
    assert forall|i: int| 0 <= i < bytes.len() implies after.screen.steps()[before.len() + i]
        == ScreenOp::Output(seq![#[trigger] bytes[i]]) by {
        assert(byte_steps(bytes)[i] == ScreenOp::Output(seq![bytes[i]]));
    }
}

/// A resize gives the screen its size and does nothing else to it: the screen
/// is resized once where it has another size and not at all where it has this
/// one.
pub proof fn a_resize_reaches_the_screen(emulator: EmulatorView, seq: u64, size: TerminalSize)
    requires
        is_next(emulator, seq as int),
    ensures
        ({
            let event = StreamEvent::Resize { seq, size };
            let (after, effects) = emulator.applied(seq![event], 0, Seq::empty(), Seq::empty());
            &&& after.screen.geometry() == size
            &&& after.screen.output() == emulator.screen.output()
            &&& emulator.screen.geometry() == size ==> after.screen.steps()
                == emulator.screen.steps()
            &&& emulator.screen.geometry() != size ==> after.screen.steps()
                == emulator.screen.steps().push(ScreenOp::Resize(size))
            &&& after.screen.limit() == emulator.screen.limit()
            &&& effects.len() == 0
            &&& after == (EmulatorView {
                last_seq: seq as int,
                dirty: true,
                screen: after.screen,
                ..emulator
            })
        }),
{
    let event = StreamEvent::Resize { seq, size };
    reveal_with_fuel(EmulatorView::applied, 2);
    assert(seq![event][0] == event);
    lemma_after(emulator.screen, ScreenOp::Resize(size));
    assert(emulator.screen.steps() + seq![ScreenOp::Resize(size)] =~= emulator.screen.steps().push(
        ScreenOp::Resize(size),
    ));
}

/// An exit is reported once with its code, and nothing happens to the screen.
pub proof fn an_exit_is_reported(emulator: EmulatorView, seq: u64, code: Option<i32>)
    requires
        is_next(emulator, seq as int),
    ensures
        ({
            let event = StreamEvent::Exit { seq, code };
            let (after, effects) = emulator.applied(seq![event], 0, Seq::empty(), Seq::empty());
            &&& effects == seq![EmulatorEffect::Exited { code }]
            &&& after == (EmulatorView {
                process: TerminalProcessState::Exited { code },
                last_seq: seq as int,
                dirty: true,
                ..emulator
            })
        }),
{
    let event = StreamEvent::Exit { seq, code };
    reveal_with_fuel(EmulatorView::applied, 2);
    assert(seq![event][0] == event);
    assert(Seq::<EmulatorEffect>::empty().push(EmulatorEffect::Exited { code }) =~= seq![
        EmulatorEffect::Exited { code },
    ]);
}

proof fn lemma_all_output_push(front: Seq<u8>, events: Seq<StreamEvent>, at: int)
    requires
        0 <= at < events.len(),
    ensures
        front + all_output(events.skip(at)) == (front + events[at].output()) + all_output(
            events.skip(at + 1),
        ),
{
    assert(events.skip(at)[0] == events[at]);
    assert(events.skip(at).drop_first() =~= events.skip(at + 1));
    assert(front + (events[at].output() + all_output(events.skip(at + 1))) =~= (front
        + events[at].output()) + all_output(events.skip(at + 1)));
}

proof fn lemma_stream_reaches_the_screen(
    emulator: EmulatorView,
    events: Seq<StreamEvent>,
    at: int,
    output: Seq<u8>,
    effects: Seq<EmulatorEffect>,
)
    requires
        0 <= at <= events.len(),
        numbered_in_a_row(events),
        at < events.len() ==> is_next(emulator, events[at].seq() as int),
        !emulator.protected,
        emulator.waiting.len() == 0,
    ensures
        emulator.applied(events, at, output, effects).0.screen.output() == emulator.screen.output()
            + emulator.screen.place().tamed(output + all_output(events.skip(at))),
    decreases events.len() - at,
{
    let place = emulator.screen.place();
    assert(emulator.waiting + output =~= output);
    lemma_advanced(emulator, output);
    if at < events.len() {
        let event = events[at];
        lemma_all_output_push(output, events, at);
        let (next, collected, reported, goes_on) = emulator.event_applied(event, output, effects);
        assert(goes_on);
        assert(at + 1 < events.len() ==> events[at + 1].seq() == event.seq() + 1);
        let reached = EmulatorView { last_seq: event.seq() as int, dirty: true, ..emulator };
        lemma_advanced(reached, output);
        let tamed = place.tamed(output);
        let rest = all_output(events.skip(at + 1));
        match event {
            StreamEvent::Output { .. } => {
                lemma_stream_reaches_the_screen(next, events, at + 1, collected, reported);
            },
            StreamEvent::Resize { size, .. } => {
                let flushed = reached.flushed(output);
                lemma_after(flushed.screen, ScreenOp::Resize(size));
                lemma_stream_reaches_the_screen(next, events, at + 1, collected, reported);
                digits_are_counted_across_pieces(place, output, rest);
                assert(output + event.output() =~= output);
                assert(collected + rest =~= rest);
                assert(next.screen.place() == place.after_all(tamed));
                assert(next.screen.output() =~= emulator.screen.output() + tamed);
                assert((emulator.screen.output() + tamed) + place.after_all(tamed).tamed(rest)
                    =~= emulator.screen.output() + (tamed + place.after_all(tamed).tamed(rest)));
            },
            StreamEvent::Exit { .. } => {
                lemma_stream_reaches_the_screen(next, events, at + 1, collected, reported);
                digits_are_counted_across_pieces(place, output, rest);
                assert(output + event.output() =~= output);
                assert(collected + rest =~= rest);
                assert(next.screen.place() == place.after_all(tamed));
                assert(next.screen.output() =~= emulator.screen.output() + tamed);
                assert((emulator.screen.output() + tamed) + place.after_all(tamed).tamed(rest)
                    =~= emulator.screen.output() + (tamed + place.after_all(tamed).tamed(rest)));
            },
        }
    } else {
        assert(events.skip(at) =~= Seq::empty());
        assert(output + all_output(events.skip(at)) =~= output);
        if output.len() == 0 {
            assert(emulator.screen.output() + place.tamed(output) =~= emulator.screen.output());
        }
    }
}

/// Whatever stands between its output, a stream shows all of it: the bytes
/// that reach the screen are those of its events, one behind the other, with
/// nothing added, left out or moved.
pub proof fn a_stream_is_shown_in_full(emulator: EmulatorView, events: Seq<StreamEvent>)
    requires
        numbered_in_a_row(events),
        events.len() > 0 ==> is_next(emulator, events[0].seq() as int),
        !emulator.protected,
        emulator.waiting.len() == 0,
        emulator.screen.place().colors_fit(all_output(events)),
    ensures
        emulator.applied(events, 0, Seq::empty(), Seq::empty()).0.screen.output()
            == emulator.screen.output() + all_output(events),
{
    lemma_stream_reaches_the_screen(emulator, events, 0, Seq::empty(), Seq::empty());
    assert(events.skip(0) =~= events);
    assert(Seq::<u8>::empty() + all_output(events) =~= all_output(events));
    proper_output_is_kept(emulator.screen.place(), all_output(events));
}

proof fn lemma_no_clear_kept(bytes: Seq<u8>, rest: Seq<u8>)
    requires
        forall|i: int| 0 <= i < bytes.len() ==> #[trigger] bytes[i] != 0x1b,
    ensures
        without_clears(bytes + rest) == (
            bytes + without_clears(rest).0,
            without_clears(rest).1,
        ),
    decreases bytes.len(),
{
    if bytes.len() == 0 {
        assert(bytes + rest =~= rest);
        assert(bytes + without_clears(rest).0 =~= without_clears(rest).0);
    } else {
        let whole = bytes + rest;
        assert(whole[0] == bytes[0]);
        assert(!starts_clear(whole) && !clears(whole));
        assert(whole.skip(1) =~= bytes.drop_first() + rest);
        lemma_no_clear_kept(bytes.drop_first(), rest);
        assert(seq![bytes[0]] + (bytes.drop_first() + without_clears(rest).0) =~= bytes
            + without_clears(rest).0);
    }
}

/// Of protected output only the clear sequence, `ESC [ 3 J`, is taken out: text
/// on either side of one stays, another sequence stays whole, and only the
/// beginning of a clear sequence waits.
pub proof fn only_clears_are_taken_out(text: Seq<u8>, other: u8, rest: Seq<u8>)
    requires
        forall|i: int| 0 <= i < text.len() ==> #[trigger] text[i] != 0x1b,
        other != 0x5b,
        other != 0x1b,
    ensures
        without_clears(text) == (text, Seq::<u8>::empty()),
        without_clears(text + seq![0x1bu8, 0x5b, 0x33, 0x4a] + rest) == (
            text + without_clears(rest).0,
            without_clears(rest).1,
        ),
        without_clears(text + seq![0x1bu8, other] + rest) == (
            text + seq![0x1bu8, other] + without_clears(rest).0,
            without_clears(rest).1,
        ),
        without_clears(text + seq![0x1bu8]) == (text, seq![0x1bu8]),
        without_clears(text + seq![0x1bu8, 0x5b]) == (text, seq![0x1bu8, 0x5b]),
        without_clears(text + seq![0x1bu8, 0x5b, 0x33]) == (text, seq![0x1bu8, 0x5b, 0x33]),
{
    let none = Seq::<u8>::empty();
    lemma_no_clear_kept(text, none);
    assert(text + none =~= text);
    let clear = seq![0x1bu8, 0x5b, 0x33, 0x4a];
    lemma_no_clear_kept(text, clear + rest);
    assert(text + clear + rest =~= text + (clear + rest));
    assert(clears(clear + rest));
    assert((clear + rest).skip(4) =~= rest);
    let pair = seq![0x1bu8, other];
    lemma_no_clear_kept(text, pair + rest);
    assert(text + pair + rest =~= text + (pair + rest));
    assert((pair + rest)[0] == 0x1b && (pair + rest)[1] == other);
    assert(clear_sequence()[1] == 0x5b);
    assert(!starts_clear(pair + rest) && !clears(pair + rest));
    assert((pair + rest).skip(1) =~= seq![other] + rest);
    lemma_no_clear_kept(seq![other], rest);
    assert(seq![0x1bu8] + (seq![other] + without_clears(rest).0) =~= pair + without_clears(rest).0);
    assert(text + (pair + without_clears(rest).0) =~= text + pair + without_clears(rest).0);
    lemma_no_clear_kept(text, seq![0x1bu8]);
    lemma_no_clear_kept(text, seq![0x1bu8, 0x5b]);
    lemma_no_clear_kept(text, seq![0x1bu8, 0x5b, 0x33]);
    assert(starts_clear(seq![0x1bu8]));
    assert(starts_clear(seq![0x1bu8, 0x5b]));
    assert(starts_clear(seq![0x1bu8, 0x5b, 0x33]));
}

/// A terminal starts with an empty screen of its size, running, at its live end.
pub proof fn an_emulator_starts_empty(
    id: TerminalId,
    size: TerminalSize,
    lines: int,
    theme: TerminalTheme,
    protected: bool,
)
    requires
        0 <= lines <= MAX_HISTORY_LINES,
    ensures
        ({
            let emulator = initial_state(id, size, lines, theme, protected);
            &&& emulator.terminal_id == id
            &&& emulator.screen.size == size
            &&& emulator.screen.geometry() == size
            &&& emulator.screen.limit() == lines
            &&& emulator.screen.output().len() == 0
            &&& emulator.scrollback_lines == lines
            &&& emulator.theme == theme
            &&& emulator.protected == protected
            &&& emulator.process is Running
            &&& emulator.last_seq == 0
            &&& !emulator.pinned && !emulator.live
            &&& emulator.writes.len() == 0 && emulator.waiting.len() == 0
        }),
{
}

/// A replay is interpreted event by event, each with the size that the resize
/// before it gave.
pub proof fn a_replay_is_rebuilt_event_by_event(
    emulator: EmulatorView,
    events: Seq<WireEvent>,
    at: int,
    size: TerminalSize,
    event: StreamEvent,
)
    requires
        0 <= at < events.len(),
    ensures
        event_of_wire(events[at], size) == Some(event) ==> emulator.rebuilt(events, at, size)
            == emulator.applied(seq![event], 0, Seq::empty(), Seq::empty()).0.rebuilt(
            events,
            at + 1,
            match event {
                StreamEvent::Resize { size: new_size, .. } => new_size,
                _ => size,
            },
        ),
        event_of_wire(events[at], size) is None ==> emulator.rebuilt(events, at, size)
            == emulator.rebuilt(events, at + 1, size),
        emulator.rebuilt(events, events.len() as int, size) == emulator,
{
}

/// A live terminal answers what the screen is asked; a replayed one does not.
pub proof fn only_a_live_terminal_answers(emulator: EmulatorView, bytes: Seq<u8>)
    requires
        bytes.len() > 0,
    ensures
        ({
            let after = emulator.interpreted(bytes);
            &&& emulator.live ==> after.writes == emulator.writes + answers_to(
                emulator.theme,
                screen_reports(after.screen),
            )
            &&& !emulator.live ==> after.writes == emulator.writes
        }),
{
}

/// Another limit counts at once, unless the viewport is pinned; turning the
/// protection off lets out what was held back.
pub proof fn limits_and_protection_take_effect(emulator: EmulatorView, lines: int)
    requires
        0 <= lines <= MAX_HISTORY_LINES,
    ensures
        emulator.with_limit(lines).scrollback_lines == lines,
        !emulator.pinned ==> emulator.with_limit(lines).screen.limit() == lines,
        emulator.pinned ==> emulator.with_limit(lines).screen == emulator.screen,
        emulator.with_protection(emulator.protected) == emulator,
        emulator.with_protection(true).protected,
        emulator.with_protection(true).screen == emulator.screen,
        !emulator.with_protection(false).protected,
        emulator.protected ==> emulator.with_protection(false).waiting.len() == 0,
        emulator.protected && emulator.waiting.len() > 0 ==> emulator.with_protection(
            false,
        ).screen.output() == emulator.screen.output() + emulator.screen.place().tamed(
            emulator.waiting,
        ),
{
    lemma_after(emulator.screen, ScreenOp::History(lines));
    lemma_after(
        emulator.screen,
        ScreenOp::Output(emulator.screen.place().tamed(emulator.waiting)),
    );
}

/// A pin keeps the display where it stands and gives the history room; without
/// it the display is where the screen has it.
pub proof fn a_pin_keeps_the_display(emulator: EmulatorView)
    ensures
        ({
            let pinned = emulator.with_pin(true);
            &&& pinned.pinned
            &&& pinned.viewport_position() == emulator.viewport_position()
            &&& pinned.screen.limit() == MAX_HISTORY_LINES
        }),
        ({
            let free = emulator.with_pin(false);
            &&& !free.pinned
            &&& free.viewport_position() == free.display_offset()
            &&& free.screen.limit() == emulator.scrollback_lines
        }),
        !emulator.at_live_bottom().pinned,
        emulator.at_live_bottom().screen.operations.last() == ScreenOp::Bottom,
        emulator.at_live_bottom().screen.limit() == emulator.scrollback_lines,
        emulator.scrolled_by(0) == emulator,
        emulator.scrolled_to(0) == emulator.at_live_bottom(),
{
    lemma_after(emulator.screen, ScreenOp::History(MAX_HISTORY_LINES as int));
    lemma_after(emulator.screen, ScreenOp::History(emulator.scrollback_lines));
    let trimmed = emulator.screen.after(ScreenOp::History(emulator.scrollback_lines));
    lemma_after(trimmed, ScreenOp::Bottom);
}

/// What is shown of a terminal is its own screen, as of its last event.
pub proof fn a_screen_is_shown_as_of_its_last_event(emulator: EmulatorView)
    requires
        0 <= emulator.last_seq <= u64::MAX,
        i64::MIN <= emulator.viewport_position() <= i64::MAX,
        emulator.displayable(),
    ensures
        ({
            let snapshot = emulator.snapshot();
            &&& snapshot.terminal_id == emulator.terminal_id
            &&& snapshot.revision == emulator.last_seq
            &&& snapshot.process == emulator.process
            &&& snapshot.size == emulator.size()
            &&& snapshot.display_offset == emulator.display_offset()
            &&& snapshot.viewport_position == if emulator.pinned {
                emulator.pinned_viewport
            } else {
                emulator.display_offset()
            }
        }),
{
}

/// A replay is rebuilt from its first event on, on a screen of the size that it
/// begins with.
pub proof fn a_replay_begins_with_its_first_event(replay: ReplayView, lines: int)
    requires
        0 <= lines <= MAX_HISTORY_LINES,
    ensures
        ({
            let start = initial_state(
                replay.terminal_id,
                replay.size,
                lines,
                TerminalTheme::standard(),
                false,
            );
            &&& replayed(replay, lines) == start.rebuilt(replay.events, 0, replay.size)
            &&& replay.events.len() == 0 ==> replayed(replay, lines) == start
        }),
{
}

} // verus!

//! The terminal emulator behind a plain interface.
//!
//! The emulator is a function of what it was given: every fact about a screen
//! is stated of the log of operations that led to it.
use std::sync::mpsc::{channel, Receiver, Sender};

use alacritty_terminal::event::{Event, EventListener};
use alacritty_terminal::grid::{Dimensions, Grid, Scroll};
use alacritty_terminal::term::cell::Cell;
use alacritty_terminal::term::{Config, Term};
use alacritty_terminal::vte::ansi::{Processor, Rgb, StdSyncHandler};
use vstd::prelude::*;
use vstd::slice::*;

use super::grid::{grid_cells, grid_shape, GridCellView, GridShape};
use super::palette::Place;
use super::snapshot::{TerminalSize, MAX_LINES};
use super::TerminalTheme;
use crate::num::{clamped, max_of, min_of};

verus! {

/// An event that the emulator reports to its listener.
#[verifier::external_type_specification]
#[verifier::external_body]
pub struct ExEvent(alacritty_terminal::event::Event);

/// One operation on a screen.
#[verifier::ext_equal]
pub enum ScreenOp {
    /// Output was interpreted.
    Output(Seq<u8>),
    /// The screen was resized.
    Resize(TerminalSize),
    /// The display moved up by a number of lines, or down by a negative one.
    Scroll(int),
    /// The display moved to the bottom.
    Bottom,
    /// The history was limited to a number of lines.
    History(int),
}

/// What a screen was made with and given since.
#[verifier::ext_equal]
pub struct ScreenLog {
    pub size: TerminalSize,
    pub history: int,
    pub operations: Seq<ScreenOp>,
}

impl ScreenLog {
    pub open spec fn after(self, operation: ScreenOp) -> ScreenLog {
        ScreenLog { operations: self.operations.push(operation), ..self }
    }

    /// The log without its last operation.
    pub open spec fn before(self) -> ScreenLog {
        ScreenLog { operations: self.operations.drop_last(), ..self }
    }

    /// The limit of the history: the one that was given last, or the one that
    /// the screen was made with.
    pub open spec fn limit(self) -> int
        decreases self.operations.len(),
    {
        if self.operations.len() == 0 {
            self.history
        } else {
            match self.operations.last() {
                ScreenOp::History(lines) => lines,
                _ => self.before().limit(),
            }
        }
    }

    /// The largest limit of the history that the screen was made with or
    /// given since.
    pub open spec fn roomiest(self) -> int
        decreases self.operations.len(),
    {
        if self.operations.len() == 0 {
            self.history
        } else {
            match self.operations.last() {
                ScreenOp::History(lines) => max_of(self.before().roomiest(), lines),
                _ => self.before().roomiest(),
            }
        }
    }

    /// The size of the screen: the one that it was given last, or the one that
    /// it was made with.
    pub open spec fn geometry(self) -> TerminalSize
        decreases self.operations.len(),
    {
        if self.operations.len() == 0 {
            self.size
        } else {
            match self.operations.last() {
                ScreenOp::Resize(size) => size,
                _ => self.before().geometry(),
            }
        }
    }

    /// What happened to the screen in single steps: output byte by byte, and
    /// resizes and moves of the display in between. Limits of the history are
    /// left out.
    pub open spec fn steps(self) -> Seq<ScreenOp>
        decreases self.operations.len(),
    {
        if self.operations.len() == 0 {
            Seq::empty()
        } else {
            self.before().steps() + match self.operations.last() {
                ScreenOp::Output(bytes) => byte_steps(bytes),
                ScreenOp::History(_) => Seq::empty(),
                other => seq![other],
            }
        }
    }

    /// All output that the screen has interpreted.
    pub open spec fn output(self) -> Seq<u8>
        decreases self.operations.len(),
    {
        if self.operations.len() == 0 {
            Seq::empty()
        } else {
            match self.operations.last() {
                ScreenOp::Output(bytes) => self.before().output() + bytes,
                _ => self.before().output(),
            }
        }
    }

    /// Where in a command the output has come to.
    pub open spec fn place(self) -> Place
        decreases self.operations.len(),
    {
        if self.operations.len() == 0 {
            Place::Text
        } else {
            match self.operations.last() {
                ScreenOp::Output(bytes) => self.before().place().after_all(bytes),
                _ => self.before().place(),
            }
        }
    }
}

/// Output as one step for every byte.
pub open spec fn byte_steps(bytes: Seq<u8>) -> Seq<ScreenOp> {
    bytes.map_values(|byte: u8| ScreenOp::Output(seq![byte]))
}

/// What one more operation changes.
pub proof fn lemma_after(log: ScreenLog, operation: ScreenOp)
    ensures
        log.after(operation).limit() == match operation {
            ScreenOp::History(lines) => lines,
            _ => log.limit(),
        },
        log.after(operation).roomiest() == match operation {
            ScreenOp::History(lines) => max_of(log.roomiest(), lines),
            _ => log.roomiest(),
        },
        log.after(operation).place() == match operation {
            ScreenOp::Output(bytes) => log.place().after_all(bytes),
            _ => log.place(),
        },
        log.after(operation).geometry() == match operation {
            ScreenOp::Resize(size) => size,
            _ => log.geometry(),
        },
        log.after(operation).steps() == log.steps() + match operation {
            ScreenOp::Output(bytes) => byte_steps(bytes),
            ScreenOp::History(_) => Seq::empty(),
            other => seq![other],
        },
        log.after(operation).output() == match operation {
            ScreenOp::Output(bytes) => log.output() + bytes,
            _ => log.output(),
        },
{
    assert(log.after(operation).before() =~= log);
}

/// The most lines of history that the emulator can number: it counts the lines
/// of the screen down from there in the same 32 bits.
pub const MAX_HISTORY_LINES: usize = 0x7fff_ffff - MAX_LINES;

/// What a screen was made with and given since.
pub uninterp spec fn screen_log(screen: Screen) -> ScreenLog;

/// The shape of the grid that a log leads to.
pub uninterp spec fn screen_shape(log: ScreenLog) -> GridShape;

/// The cells of the grid that a log leads to, by line and column.
pub uninterp spec fn screen_cells(log: ScreenLog) -> Map<(int, int), GridCellView>;

/// The mode bits that a log leads to.
pub uninterp spec fn screen_mode(log: ScreenLog) -> u32;

/// What the emulator has reported at the end of a log since the output before,
/// in order.
pub uninterp spec fn screen_reports(log: ScreenLog) -> Seq<Report>;

/// The text that a formatter makes of a red, green and blue.
pub uninterp spec fn color_text(format: ColorFormat, red: u8, green: u8, blue: u8) -> Seq<u8>;

/// What a program that asked for a colour is told of it: the emulator hands
/// its formatter along with the request.
#[verifier::external_body]
pub struct ColorFormat {
    format: std::sync::Arc<dyn Fn(Rgb) -> String + Sync + Send + 'static>,
}

/// An event that the emulator reports.
pub enum ScreenReport {
    /// Bytes for the program.
    Write(Vec<u8>),
    /// A program asks for a colour.
    Color(usize, ColorFormat),
    /// Anything else.
    Other,
}

/// An event that the emulator reports, by its values.
pub enum Report {
    Write(Seq<u8>),
    Color(int, ColorFormat),
    Other,
}

impl View for ScreenReport {
    type V = Report;

    open spec fn view(&self) -> Report {
        match self {
            ScreenReport::Write(bytes) => Report::Write(bytes@),
            ScreenReport::Color(index, format) => Report::Color(*index as int, *format),
            ScreenReport::Other => Report::Other,
        }
    }
}

/// Some events by their values.
pub open spec fn reports_view(reports: Seq<ScreenReport>) -> Seq<Report> {
    reports.map_values(|report: ScreenReport| report@)
}

/// The byte of a colour at a shift of 16, 8 or 0 bits.
pub open spec fn color_byte(color: u32, place: int) -> u8 {
    if place == 2 {
        (color / 0x10000 % 0x100) as u8
    } else if place == 1 {
        (color / 0x100 % 0x100) as u8
    } else {
        (color % 0x100) as u8
    }
}

/// The colour that a program is told for one of the dynamic colours.
pub open spec fn dynamic_color(theme: TerminalTheme, index: int) -> Option<u32> {
    if index == 256 {
        Some(theme.foreground)
    } else if index == 257 {
        Some(theme.background)
    } else if index == 258 {
        Some(theme.cursor)
    } else {
        None
    }
}

/// The red, green and blue that a program is told for a dynamic colour: the
/// foreground, the background or the cursor.
pub fn terminal_dynamic_color(theme: TerminalTheme, index: usize) -> (color: Option<(u8, u8, u8)>)
    ensures
        color == match dynamic_color(theme, index as int) {
            Some(color) => Some((color_byte(color, 2), color_byte(color, 1), color_byte(color, 0))),
            None => None,
        },
{
    let color: u32 = if index == 256 {
        theme.foreground
    } else if index == 257 {
        theme.background
    } else if index == 258 {
        theme.cursor
    } else {
        return None;
    };
    Some(((color / 0x10000 % 0x100) as u8, (color / 0x100 % 0x100) as u8, (color % 0x100) as u8))
}

/// What the program is answered to an event. Side effects are suppressed by
/// design: title changes arrive through the server's metadata scanner, the
/// shell owns exit state, and bells and the clipboard are out of scope.
pub open spec fn answer_to(theme: TerminalTheme, report: Report) -> Option<Seq<u8>> {
    match report {
        Report::Write(bytes) => Some(bytes),
        Report::Color(index, format) => match dynamic_color(theme, index) {
            Some(color) => Some(
                color_text(format, color_byte(color, 2), color_byte(color, 1), color_byte(color, 0)),
            ),
            None => None,
        },
        Report::Other => None,
    }
}

/// What the programs are answered to some events, in order.
pub open spec fn answers_to(theme: TerminalTheme, reports: Seq<Report>) -> Seq<Seq<u8>>
    decreases reports.len(),
{
    if reports.len() == 0 {
        Seq::empty()
    } else {
        let earlier = answers_to(theme, reports.drop_last());
        match answer_to(theme, reports.last()) {
            Some(answer) => earlier.push(answer),
            None => earlier,
        }
    }
}

/// Calls the formatter that came with a request for a colour. What it makes of
/// the colour is a function of the formatter and the colour.
#[verifier::external_body]
fn format_color(format: &ColorFormat, red: u8, green: u8, blue: u8) -> (text: Vec<u8>)
    ensures
        text@ == color_text(*format, red, green, blue),
{
    (format.format)(Rgb { r: red, g: green, b: blue }).into_bytes()
}

/// Answers the events that want an answer.
pub fn answers(theme: TerminalTheme, reports: &Vec<ScreenReport>) -> (answers: Vec<Vec<u8>>)
    ensures
        answers@.map_values(|answer: Vec<u8>| answer@) == answers_to(
            theme,
            reports_view(reports@),
        ),
{
    let ghost all = reports_view(reports@);
    let mut answers: Vec<Vec<u8>> = Vec::new();
    let mut i: usize = 0;
    assert(all.take(0) =~= Seq::empty());
    assert(answers@.map_values(|answer: Vec<u8>| answer@) =~= Seq::empty());
    while i < reports.len()
        invariant
            i <= reports@.len(),
            all == reports_view(reports@),
            answers@.map_values(|answer: Vec<u8>| answer@) == answers_to(theme, all.take(i as int)),
        decreases reports@.len() - i,
    {
        assert(all.take(i + 1).drop_last() =~= all.take(i as int));
        assert(all.take(i + 1).last() == reports@[i as int]@);
        let answer: Option<Vec<u8>> = match &reports[i] {
            ScreenReport::Write(bytes) => Some(slice_to_vec(bytes.as_slice())),
            ScreenReport::Color(index, format) => match terminal_dynamic_color(theme, *index) {
                Some((red, green, blue)) => Some(format_color(format, red, green, blue)),
                None => None,
            },
            ScreenReport::Other => None,
        };
        if let Some(answer) = answer {
            let ghost before = answers@;
            answers.push(answer);
            assert(answers@.map_values(|answer: Vec<u8>| answer@) =~= before.map_values(
                |answer: Vec<u8>| answer@,
            ).push(answer@));
        }
        i = i + 1;
    }
    assert(all.take(i as int) =~= all);
    answers
}

/// Forwards the events of the emulator.
#[verifier::external_body]
struct Listener {
    sender: Sender<ScreenReport>,
}

impl EventListener for Listener {
    /// Forwards an event of the emulator as it is.
    #[verifier::external_body]
    fn send_event(&self, event: Event) {
        let report = match event {
            Event::PtyWrite(text) => ScreenReport::Write(text.into_bytes()),
            Event::ColorRequest(index, format) => ScreenReport::Color(index, ColorFormat { format }),
            _ => ScreenReport::Other,
        };
        let _ = self.sender.send(report);
    }
}

impl Dimensions for TerminalSize {
    fn total_lines(&self) -> (lines: usize)
        ensures
            lines == self.lines,
    {
        self.lines
    }

    fn screen_lines(&self) -> (lines: usize)
        ensures
            lines == self.lines,
    {
        self.lines
    }

    fn columns(&self) -> (columns: usize)
        ensures
            columns == self.columns,
    {
        self.columns
    }
}

/// The emulator: a `Term`, the `Processor` that feeds it and its events. The
/// processor persists across output so that escape sequences split across
/// frames are reassembled, not lost.
#[verifier::external_body]
pub struct Screen {
    term: Term<Listener>,
    processor: Processor<StdSyncHandler>,
    reports: Receiver<ScreenReport>,
}

impl View for Screen {
    type V = ScreenLog;

    open spec fn view(&self) -> ScreenLog {
        screen_log(*self)
    }
}

/// The shape of a grid once its display has moved.
pub open spec fn scrolled(shape: GridShape, lines: int) -> GridShape {
    GridShape {
        display_offset: min_of(max_of(shape.display_offset + lines, 0), shape.history()) as usize,
        ..shape
    }
}

/// The shape of a grid once its history is limited.
pub open spec fn limited(shape: GridShape, history: int) -> GridShape {
    GridShape {
        total_lines: if shape.history() > history {
            (shape.screen_lines + history) as usize
        } else {
            shape.total_lines
        },
        display_offset: min_of(shape.display_offset as int, history) as usize,
        ..shape
    }
}

impl Screen {
    /// `Term::new` and `Processor::new`: a blank grid of the given size, no
    /// history, the cursor at home.
    #[verifier::external_body]
    pub(crate) fn new(size: TerminalSize, history: usize) -> (screen: Self)
        requires
            size.within_limits(),
        ensures
            screen_log(screen) == (ScreenLog {
                size,
                history: history as int,
                operations: Seq::empty(),
            }),
            screen_shape(screen_log(screen)) == (GridShape {
                columns: size.columns,
                screen_lines: size.lines,
                total_lines: size.lines,
                display_offset: 0,
                cursor_line: 0,
                cursor_column: 0,
            }),
    {
        let (sender, reports) = channel();
        let config = Config { scrolling_history: history, ..Config::default() };
        let term = Term::new(config, &size, Listener { sender });
        Self { term, processor: Processor::new(), reports }
    }

    /// `Processor::advance` interprets output. The size of the grid stays. What
    /// comes back are the events that the emulator reported meanwhile. It
    /// negates line numbers, so that they have to fit 32 bits with a sign, and
    /// shifts by the number of digits of a colour. Left unsaid is that the
    /// display stays within the history: `Grid::scroll_up` moves a display that
    /// is off the bottom also where a region below the top of the screen
    /// scrolls, and nothing enters the history.
    #[verifier::external_body]
    pub(crate) fn advance(&mut self, bytes: &[u8]) -> (reports: Vec<ScreenReport>)
        requires
            screen_log(*old(self)).roomiest() <= MAX_HISTORY_LINES,
            screen_log(*old(self)).place().colors_fit(bytes@),
        ensures
            screen_log(*final(self)) == screen_log(*old(self)).after(ScreenOp::Output(bytes@)),
            screen_shape(screen_log(*final(self))).columns == screen_shape(
                screen_log(*old(self)),
            ).columns,
            screen_shape(screen_log(*final(self))).screen_lines == screen_shape(
                screen_log(*old(self)),
            ).screen_lines,
            reports_view(reports@) == screen_reports(screen_log(*final(self))),
    {
        self.processor.advance(&mut self.term, bytes);
        self.reports.try_iter().collect()
    }

    /// `Term::resize` gives the grid a new size. It adds the lines of the
    /// screen to the limit of the history.
    #[verifier::external_body]
    pub(crate) fn resize(&mut self, size: TerminalSize)
        requires
            size.within_limits(),
            screen_log(*old(self)).roomiest() <= MAX_HISTORY_LINES,
        ensures
            screen_log(*final(self)) == screen_log(*old(self)).after(ScreenOp::Resize(size)),
            screen_shape(screen_log(*final(self))).columns == size.columns,
            screen_shape(screen_log(*final(self))).screen_lines == size.lines,
    {
        self.term.resize(size);
    }

    /// `Term::scroll_display` moves the display by lines, within the history.
    #[verifier::external_body]
    pub(crate) fn scroll(&mut self, lines: i32)
        requires
            screen_shape(screen_log(*old(self))).display_offset <= i32::MAX,
            screen_shape(screen_log(*old(self))).display_offset + lines <= i32::MAX,
        ensures
            screen_log(*final(self)) == screen_log(*old(self)).after(ScreenOp::Scroll(lines as int)),
            screen_shape(screen_log(*final(self))) == scrolled(
                screen_shape(screen_log(*old(self))),
                lines as int,
            ),
    {
        self.term.scroll_display(Scroll::Delta(lines));
    }

    /// `Term::scroll_display` moves the display to the bottom.
    #[verifier::external_body]
    pub(crate) fn scroll_to_bottom(&mut self)
        ensures
            screen_log(*final(self)) == screen_log(*old(self)).after(ScreenOp::Bottom),
            screen_shape(screen_log(*final(self))) == (GridShape {
                display_offset: 0,
                ..screen_shape(screen_log(*old(self)))
            }),
    {
        self.term.scroll_display(Scroll::Bottom);
    }

    /// `Grid::update_history` limits the history to a number of lines and
    /// keeps the display within it.
    #[verifier::external_body]
    pub(crate) fn limit_history(&mut self, lines: usize)
        ensures
            screen_log(*final(self)) == screen_log(*old(self)).after(
                ScreenOp::History(lines as int),
            ),
            screen_shape(screen_log(*final(self))) == limited(
                screen_shape(screen_log(*old(self))),
                lines as int,
            ),
    {
        self.term.grid_mut().update_history(lines);
    }

    /// `Term::grid` is the grid that is displayed.
    #[verifier::external_body]
    pub(crate) fn grid(&self) -> (grid: &Grid<Cell>)
        ensures
            grid_shape(*grid) == screen_shape(screen_log(*self)),
            grid_cells(*grid) == screen_cells(screen_log(*self)),
    {
        self.term.grid()
    }

    /// `Term::mode` holds the mode bits.
    #[verifier::external_body]
    pub(crate) fn mode(&self) -> (bits: u32)
        ensures
            bits == screen_mode(screen_log(*self)),
    {
        self.term.mode().bits()
    }
}

/// A report is answered: what it asks to be written, and a colour that the theme
/// has, the foreground, the background or the cursor's, by its three parts; no
/// other colour and nothing else is answered.
pub proof fn reports_are_answered_in_order(
    theme: TerminalTheme,
    front: Seq<Report>,
    bytes: Seq<u8>,
    index: int,
    format: ColorFormat,
)
    ensures
        answers_to(theme, Seq::empty()).len() == 0,
        answers_to(theme, front.push(Report::Write(bytes))) == answers_to(theme, front).push(bytes),
        answers_to(theme, front.push(Report::Other)) == answers_to(theme, front),
        ({
            let answers = answers_to(theme, front.push(Report::Color(index, format)));
            let color = if index == 256 {
                theme.foreground
            } else if index == 257 {
                theme.background
            } else {
                theme.cursor
            };
            if 256 <= index <= 258 {
                answers == answers_to(theme, front).push(
                    color_text(
                        format,
                        (color / 65536 % 256) as u8,
                        (color / 256 % 256) as u8,
                        (color % 256) as u8,
                    ),
                )
            } else {
                answers == answers_to(theme, front)
            }
        }),
{
    assert(front.push(Report::Write(bytes)).drop_last() =~= front);
    assert(front.push(Report::Other).drop_last() =~= front);
    assert(front.push(Report::Color(index, format)).drop_last() =~= front);
}

/// The display scrolls by the lines that are asked for, up to the oldest line and
/// down to the newest; a shorter history loses its oldest lines only.
pub proof fn the_display_stays_in_the_history(shape: GridShape, lines: int, history: int)
    requires
        shape.display_offset <= shape.history(),
        shape.screen_lines <= shape.total_lines,
        0 <= history <= usize::MAX - shape.screen_lines,
    ensures
        ({
            let after = scrolled(shape, lines);
            &&& 0 <= shape.display_offset + lines <= shape.history() ==> after.display_offset
                == shape.display_offset + lines
            &&& shape.display_offset + lines < 0 ==> after.display_offset == 0
            &&& shape.display_offset + lines > shape.history() ==> after.display_offset
                == shape.history()
            &&& after.total_lines == shape.total_lines
            &&& after.columns == shape.columns
        }),
        ({
            let after = limited(shape, history);
            &&& shape.history() <= history ==> after == shape
            &&& shape.history() > history ==> after.history() == history
            &&& after.screen_lines == shape.screen_lines
            &&& shape.display_offset <= history ==> after.display_offset == shape.display_offset
            &&& shape.display_offset > history ==> after.display_offset == history
        }),
{
}

} // verus!

//! What is painted for one row of a terminal: runs of text, and the
//! backgrounds behind them.
use vstd::prelude::*;
use vstd::string::*;
use vstd::utf8::*;

use super::colors::{
    cell_colors, color_to_rgb, rgb_of, terminal_cell_colors, theme_color, theme_rgb, ThemeColors,
};
use super::selection::{contains_position, is_between, TerminalCellPosition};
use crate::num::{max_of, min_of};
use crate::terminal::snapshot::{
    CellView, SnapshotView, TerminalCell, TerminalColor, TerminalSnapshot,
};

verus! {

/// Where the cursor is drawn: on the screen, and on the first half of a wide
/// character.
pub open spec fn cursor_cell(snapshot: SnapshotView) -> (int, int) {
    let row = min_of(snapshot.cursor.row as int, max_of(snapshot.size.lines - 1, 0));
    let column = min_of(snapshot.cursor.column as int, max_of(snapshot.size.columns - 1, 0));
    match snapshot.cell_at(row, column) {
        Some(cell) => if cell.style.wide_spacer {
            (row, max_of(column - 1, 0))
        } else {
            (row, column)
        },
        None => (row, column),
    }
}

/// Where the cursor is drawn.
pub fn terminal_cursor_position(snapshot: &TerminalSnapshot) -> (position: (usize, usize))
    ensures
        (position.0 as int, position.1 as int) == cursor_cell(snapshot@),
{
    let row: usize = snapshot.cursor.row.min(snapshot.size.lines.saturating_sub(1));
    let column: usize = snapshot.cursor.column.min(snapshot.size.columns.saturating_sub(1));
    let second_half: bool = match snapshot.cell(row, column) {
        Some(cell) => cell.flags.wide_spacer(),
        None => false,
    };
    if second_half {
        (row, column.saturating_sub(1))
    } else {
        (row, column)
    }
}

/// How many columns the cursor takes: two on a wide character.
pub open spec fn cursor_width(snapshot: SnapshotView) -> usize {
    let (row, column) = cursor_cell(snapshot);
    match snapshot.cell_at(row, column) {
        Some(cell) => if cell.style.wide {
            2
        } else {
            1
        },
        None => 1,
    }
}

/// How many columns the cell under the cursor takes.
pub fn cursor_columns(snapshot: &TerminalSnapshot) -> (columns: usize)
    ensures
        columns == cursor_width(snapshot@),
{
    let (row, column) = terminal_cursor_position(snapshot);
    match snapshot.cell(row, column) {
        Some(cell) => if cell.flags.wide() {
            2
        } else {
            1
        },
        None => 1,
    }
}

/// Columns with one background.
#[derive(Debug, Clone, Copy, PartialEq, Eq, Structural)]
pub struct TerminalBackgroundSpan {
    pub start_column: usize,
    pub width_columns: usize,
    pub color: u32,
}

/// How a run of text looks.
#[derive(Debug, Clone, Copy, PartialEq, Eq, Structural)]
pub struct TextStyle {
    pub bold: bool,
    pub italic: bool,
    pub underline: bool,
    pub strike: bool,
    pub color: u32,
}

/// A run of text in one style; its length is in bytes.
#[derive(Debug, Clone, Copy, PartialEq, Eq, Structural)]
pub struct TerminalTextRun {
    pub len: usize,
    pub style: TextStyle,
}

#[derive(Debug)]
pub struct TerminalTextCell {
    pub text: String,
    pub run: TerminalTextRun,
    pub width_columns: usize,
}

#[derive(Debug)]
pub struct TerminalTextChunk {
    pub start_column: usize,
    pub width_columns: usize,
    pub span_columns: usize,
    /// The cells have to be fitted to the grid one by one.
    pub requires_cell_scaling: bool,
    pub text: String,
    pub runs: Vec<TerminalTextRun>,
    pub cells: Vec<TerminalTextCell>,
}

#[verifier::ext_equal]
pub struct TextCellView {
    pub text: Seq<char>,
    pub run: TerminalTextRun,
    pub width: int,
}

#[verifier::ext_equal]
pub struct ChunkView {
    pub start: int,
    pub width: int,
    pub span: int,
    pub scaled: bool,
    pub text: Seq<char>,
    pub runs: Seq<TerminalTextRun>,
    pub cells: Seq<TextCellView>,
}

impl View for TerminalTextCell {
    type V = TextCellView;

    open spec fn view(&self) -> TextCellView {
        TextCellView { text: self.text@, run: self.run, width: self.width_columns as int }
    }
}

pub open spec fn cell_views(cells: Seq<TerminalTextCell>) -> Seq<TextCellView> {
    cells.map_values(|cell: TerminalTextCell| cell@)
}

impl View for TerminalTextChunk {
    type V = ChunkView;

    open spec fn view(&self) -> ChunkView {
        ChunkView {
            start: self.start_column as int,
            width: self.width_columns as int,
            span: self.span_columns as int,
            scaled: self.requires_cell_scaling,
            text: self.text@,
            runs: self.runs@,
            cells: cell_views(self.cells@),
        }
    }
}

pub open spec fn chunk_views(chunks: Seq<TerminalTextChunk>) -> Seq<ChunkView> {
    chunks.map_values(|chunk: TerminalTextChunk| chunk@)
}

/// The columns that some cells take together.
pub open spec fn columns_of(cells: Seq<TextCellView>) -> int
    decreases cells.len(),
{
    if cells.len() == 0 {
        0
    } else {
        columns_of(cells.drop_last()) + cells.last().width
    }
}

/// The runs with one more: a run in the style of the last one lengthens it.
pub open spec fn with_run(runs: Seq<TerminalTextRun>, run: TerminalTextRun) -> Seq<TerminalTextRun> {
    if runs.len() > 0 && runs.last().style == run.style {
        runs.drop_last().push(
            TerminalTextRun { len: (runs.last().len + run.len) as usize, style: run.style },
        )
    } else {
        runs.push(run)
    }
}

/// The backgrounds with one more: one that goes on from the last in its
/// colour widens it.
pub open spec fn with_background(
    spans: Seq<TerminalBackgroundSpan>,
    span: TerminalBackgroundSpan,
) -> Seq<TerminalBackgroundSpan> {
    if span.width_columns == 0 {
        spans
    } else if spans.len() > 0 && spans.last().color == span.color && spans.last().start_column
        + spans.last().width_columns == span.start_column {
        spans.drop_last().push(
            TerminalBackgroundSpan {
                width_columns: (spans.last().width_columns + span.width_columns) as usize,
                ..spans.last()
            },
        )
    } else {
        spans.push(span)
    }
}

/// What has been painted of a row, and the chunk that is being written.
#[verifier::ext_equal]
pub struct RowView {
    pub chunks: Seq<ChunkView>,
    pub backgrounds: Seq<TerminalBackgroundSpan>,
    pub start: int,
    pub text: Seq<char>,
    pub runs: Seq<TerminalTextRun>,
    pub cells: Seq<TextCellView>,
    pub scaled: bool,
}

/// What a row is painted with.
#[derive(Debug, Clone, Copy)]
pub struct RowOptions {
    pub theme: ThemeColors,
    /// The first and the last selected position.
    pub selected: Option<(TerminalCellPosition, TerminalCellPosition)>,
    pub cursor_focused: bool,
}

/// The position is selected.
pub open spec fn is_selected(options: RowOptions, row: int, column: int) -> bool {
    match options.selected {
        Some((start, end)) => is_between(
            TerminalCellPosition { row: row as i32, column: column as usize },
            start,
            end,
        ),
        None => false,
    }
}

/// The colours that a cell is painted in: its own, those of the selection, or
/// those of the cursor.
pub open spec fn painted_colors(
    snapshot: SnapshotView,
    row: int,
    column: int,
    cell: CellView,
    options: RowOptions,
) -> (TerminalColor, TerminalColor) {
    let (own, behind) = cell_colors(cell, options.theme);
    if snapshot.cursor.visible && cursor_cell(snapshot) == (row, column) && options.cursor_focused {
        (theme_rgb(options.theme.cursor_foreground), theme_rgb(options.theme.cursor_background))
    } else if is_selected(options, row, column) {
        (own, theme_rgb(options.theme.selection_background))
    } else {
        (own, behind)
    }
}

/// All characters are ASCII.
pub open spec fn is_ascii(text: Seq<char>) -> bool {
    forall|i: int| 0 <= i < text.len() ==> #[trigger] text[i] <= '\u{7f}'
}

/// How many columns a cell takes.
pub open spec fn cell_width(snapshot: SnapshotView, column: int, cell: CellView) -> int {
    min_of(
        if cell.style.wide {
            2
        } else {
            1
        },
        snapshot.size.columns - column,
    )
}

/// The text of a cell as it is painted.
pub open spec fn text_cell(
    snapshot: SnapshotView,
    row: int,
    column: int,
    cell: CellView,
    options: RowOptions,
) -> TextCellView {
    TextCellView {
        text: seq![cell.character] + cell.zerowidth,
        run: TerminalTextRun {
            len: encode_utf8(seq![cell.character] + cell.zerowidth).len() as usize,
            style: TextStyle {
                bold: cell.style.bold,
                italic: cell.style.italic,
                underline: cell.style.underline,
                strike: cell.style.strike,
                color: rgb_of(
                    painted_colors(snapshot, row, column, cell, options).0,
                    true,
                    options.theme,
                ),
            },
        },
        width: cell_width(snapshot, column, cell),
    }
}

impl RowView {
    pub open spec fn blank() -> RowView {
        RowView {
            chunks: Seq::empty(),
            backgrounds: Seq::empty(),
            start: 0,
            text: Seq::empty(),
            runs: Seq::empty(),
            cells: Seq::empty(),
            scaled: false,
        }
    }

    /// With the chunk that is being written completed.
    pub open spec fn flushed(self) -> RowView {
        if self.text.len() == 0 {
            self
        } else {
            RowView {
                chunks: self.chunks.push(
                    ChunkView {
                        start: self.start,
                        width: 1,
                        span: columns_of(self.cells),
                        scaled: self.scaled,
                        text: self.text,
                        runs: self.runs,
                        cells: self.cells,
                    },
                ),
                text: Seq::empty(),
                runs: Seq::empty(),
                cells: Seq::empty(),
                scaled: false,
                ..self
            }
        }
    }

    /// With the background of a cell, unless it is that of the terminal.
    pub open spec fn with_ground(
        self,
        snapshot: SnapshotView,
        row: int,
        column: int,
        cell: CellView,
        options: RowOptions,
    ) -> RowView {
        let color = rgb_of(
            painted_colors(snapshot, row, column, cell, options).1,
            false,
            options.theme,
        );
        if color == options.theme.terminal_background {
            self
        } else {
            RowView {
                backgrounds: with_background(
                    self.backgrounds,
                    TerminalBackgroundSpan {
                        start_column: column as usize,
                        width_columns: cell_width(snapshot, column, cell) as usize,
                        color,
                    },
                ),
                ..self
            }
        }
    }

    /// With the text of a cell: a wide character is a chunk of its own.
    pub open spec fn with_text(self, column: int, cell: TextCellView, wide: bool) -> RowView {
        if wide {
            let flushed = self.flushed();
            RowView {
                chunks: flushed.chunks.push(
                    ChunkView {
                        start: column,
                        width: cell.width,
                        span: cell.width,
                        scaled: true,
                        text: cell.text,
                        runs: seq![cell.run],
                        cells: seq![cell],
                    },
                ),
                ..flushed
            }
        } else {
            RowView {
                start: if self.text.len() == 0 {
                    column
                } else {
                    self.start
                },
                text: self.text + cell.text,
                runs: with_run(self.runs, cell.run),
                cells: self.cells.push(cell),
                scaled: self.scaled || !is_ascii(cell.text),
                ..self
            }
        }
    }

    /// With the cell at a column.
    pub open spec fn with_cell(
        self,
        snapshot: SnapshotView,
        row: int,
        column: int,
        options: RowOptions,
    ) -> RowView {
        match snapshot.cell_at(row, column) {
            None => self,
            Some(cell) => if cell.style.wide_spacer {
                self.flushed()
            } else {
                let grounded = self.with_ground(snapshot, row, column, cell, options);
                if cell.style.leading_wide_spacer {
                    grounded.flushed()
                } else {
                    grounded.with_text(
                        column,
                        text_cell(snapshot, row, column, cell, options),
                        cell.style.wide,
                    )
                }
            },
        }
    }

    /// With the cells of the first columns of a row.
    pub open spec fn with_cells(
        self,
        snapshot: SnapshotView,
        row: int,
        columns: int,
        options: RowOptions,
    ) -> RowView
        decreases columns,
    {
        if columns <= 0 {
            self
        } else {
            self.with_cells(snapshot, row, columns - 1, options).with_cell(
                snapshot,
                row,
                columns - 1,
                options,
            )
        }
    }
}

/// What is painted for a row.
pub open spec fn painted_row(snapshot: SnapshotView, row: int, options: RowOptions) -> RowView {
    RowView::blank().with_cells(snapshot, row, snapshot.size.columns as int, options).flushed()
}

/// Adds a run of text.
pub fn append_terminal_text_run(runs: &mut Vec<TerminalTextRun>, run: TerminalTextRun)
    requires
        old(runs)@.len() > 0 ==> old(runs)@.last().len + run.len <= usize::MAX,
    ensures
        final(runs)@ == with_run(old(runs)@, run),
{
    let count: usize = runs.len();
    if count > 0 && runs[count - 1].style == run.style {
        let len: usize = runs[count - 1].len + run.len;
        runs.set(count - 1, TerminalTextRun { len, style: run.style });
        assert(runs@ =~= with_run(old(runs)@, run));
    } else {
        runs.push(run);
    }
}

/// Adds a background.
pub fn push_terminal_background(
    backgrounds: &mut Vec<TerminalBackgroundSpan>,
    start_column: usize,
    width_columns: usize,
    color: u32,
)
    requires
        start_column + width_columns <= usize::MAX,
        old(backgrounds)@.len() > 0 ==> old(backgrounds)@.last().start_column + old(
            backgrounds,
        )@.last().width_columns <= usize::MAX,
    ensures
        final(backgrounds)@ == with_background(
            old(backgrounds)@,
            TerminalBackgroundSpan { start_column, width_columns, color },
        ),
{
    if width_columns == 0 {
        return;
    }
    let count: usize = backgrounds.len();
    if count > 0 && backgrounds[count - 1].color == color && backgrounds[count - 1].start_column
        + backgrounds[count - 1].width_columns == start_column {
        let last: TerminalBackgroundSpan = backgrounds[count - 1];
        backgrounds.set(
            count - 1,
            TerminalBackgroundSpan {
                start_column: last.start_column,
                width_columns: last.width_columns + width_columns,
                color: last.color,
            },
        );
        assert(backgrounds@ =~= with_background(
            old(backgrounds)@,
            TerminalBackgroundSpan { start_column, width_columns, color },
        ));
    } else {
        backgrounds.push(TerminalBackgroundSpan { start_column, width_columns, color });
    }
}

/// The bytes of some runs.
pub open spec fn run_bytes(runs: Seq<TerminalTextRun>) -> int
    decreases runs.len(),
{
    if runs.len() == 0 {
        0
    } else {
        run_bytes(runs.drop_last()) + runs.last().len
    }
}

proof fn lemma_run_bytes_nonnegative(runs: Seq<TerminalTextRun>)
    ensures
        run_bytes(runs) >= 0,
    decreases runs.len(),
{
    if runs.len() > 0 {
        lemma_run_bytes_nonnegative(runs.drop_last());
    }
}

proof fn lemma_with_run(runs: Seq<TerminalTextRun>, run: TerminalTextRun)
    requires
        run_bytes(runs) + run.len <= usize::MAX,
    ensures
        run_bytes(with_run(runs, run)) == run_bytes(runs) + run.len,
        runs.len() > 0 ==> runs.last().len + run.len <= usize::MAX,
{
    let next = with_run(runs, run);
    if runs.len() > 0 {
        lemma_run_bytes_nonnegative(runs.drop_last());
        if runs.last().style == run.style {
            assert(next.drop_last() =~= runs.drop_last());
        } else {
            assert(next.drop_last() =~= runs);
        }
    } else {
        assert(next.drop_last() =~= runs);
    }
}

proof fn lemma_encode_concat(front: Seq<char>, back: Seq<char>)
    ensures
        encode_utf8(front + back) == encode_utf8(front) + encode_utf8(back),
    decreases front.len(),
{
    if front.len() == 0 {
        assert(front + back =~= back);
        assert(encode_utf8(front) + encode_utf8(back) =~= encode_utf8(back));
    } else {
        lemma_encode_concat(front.drop_first(), back);
        assert((front + back).drop_first() =~= front.drop_first() + back);
        assert(encode_utf8(front + back) =~= encode_utf8(front) + encode_utf8(back));
    }
}

/// A row that is being painted.
struct RowPainter {
    chunks: Vec<TerminalTextChunk>,
    backgrounds: Vec<TerminalBackgroundSpan>,
    start: usize,
    text: String,
    runs: Vec<TerminalTextRun>,
    cells: Vec<TerminalTextCell>,
    scaled: bool,
}

impl RowPainter {
    spec fn view(&self) -> RowView {
        RowView {
            chunks: chunk_views(self.chunks@),
            backgrounds: self.backgrounds@,
            start: self.start as int,
            text: self.text@,
            runs: self.runs@,
            cells: cell_views(self.cells@),
            scaled: self.scaled,
        }
    }

    /// The runs are as long as the text, and what was painted ends at or
    /// before a column.
    spec fn fits(&self, column: int) -> bool {
        &&& run_bytes(self.runs@) == encode_utf8(self.text@).len()
        &&& 0 <= columns_of(cell_views(self.cells@)) <= column
        &&& self.backgrounds@.len() > 0 ==> self.backgrounds@.last().start_column
            + self.backgrounds@.last().width_columns <= column + 2
    }

    fn flush(&mut self, Ghost(column): Ghost<int>)
        requires
            old(self).fits(column),
            column <= usize::MAX,
        ensures
            final(self).view() == old(self).view().flushed(),
            final(self).fits(column),
    {
        if self.text.as_str().is_empty() {
            return;
        }
        let mut text: String = String::new();
        let mut runs: Vec<TerminalTextRun> = Vec::new();
        let mut cells: Vec<TerminalTextCell> = Vec::new();
        std::mem::swap(&mut text, &mut self.text);
        std::mem::swap(&mut runs, &mut self.runs);
        std::mem::swap(&mut cells, &mut self.cells);
        let ghost all = cell_views(cells@);
        let mut span_columns: usize = 0;
        let mut at: usize = 0;
        assert(all.take(0) =~= Seq::empty());
        while at < cells.len()
            invariant
                at <= cells@.len(),
                all == cell_views(cells@),
                0 <= columns_of(all) <= column <= usize::MAX,
                span_columns == columns_of(all.take(at as int)),
            decreases cells@.len() - at,
        {
            proof {
                assert(all.take(at + 1).drop_last() =~= all.take(at as int));
                assert(all.take(at + 1).last() == cells@[at as int]@);
                lemma_columns_prefix(all, at + 1, cells@);
            }
            span_columns = span_columns + cells[at].width_columns;
            at = at + 1;
        }
        assert(all.take(at as int) =~= all);
        let ghost earlier = self.chunks@;
        let chunk = TerminalTextChunk {
            start_column: self.start,
            width_columns: 1,
            span_columns,
            requires_cell_scaling: self.scaled,
            text,
            runs,
            cells,
        };
        let ghost pushed = chunk@;
        self.chunks.push(chunk);
        self.scaled = false;
        proof {
            assert(chunk_views(self.chunks@) =~= chunk_views(earlier).push(pushed));
            assert(cell_views(self.cells@) =~= Seq::empty());
            assert(self.view() =~= old(self).view().flushed());
            assert(encode_utf8(self.text@).len() == 0);
        }
    }
}

proof fn lemma_columns_prefix(all: Seq<TextCellView>, end: int, cells: Seq<TerminalTextCell>)
    requires
        0 <= end <= all.len(),
        all == cell_views(cells),
    ensures
        0 <= columns_of(all.take(end)) <= columns_of(all),
    decreases all.len() - end, end,
{
    assert(all.take(end) =~= cell_views(cells.take(end)));
    lemma_columns_nonnegative(all.take(end), cells.take(end));
    if end < all.len() {
        lemma_columns_prefix(all, end + 1, cells);
        assert(all.take(end + 1).drop_last() =~= all.take(end));
        assert(all.take(end + 1).last() == cells[end]@);
    } else {
        assert(all.take(end) =~= all);
    }
}

proof fn lemma_columns_nonnegative(all: Seq<TextCellView>, cells: Seq<TerminalTextCell>)
    requires
        all == cell_views(cells),
    ensures
        0 <= columns_of(all),
    decreases all.len(),
{
    if all.len() > 0 {
        assert(all.drop_last() =~= cell_views(cells.drop_last()));
        assert(all.last() == cells.last()@);
        lemma_columns_nonnegative(all.drop_last(), cells.drop_last());
    }
}

fn painted_text(cell: &TerminalCell) -> (text: String)
    ensures
        text@ == seq![cell.character] + cell@.zerowidth,
{
    let mut text: String = String::new();
    text.push(cell.character);
    let marks: &[char] = cell.marks();
    let mut i: usize = 0;
    assert(text@ =~= seq![cell.character] + marks@.take(0));
    while i < marks.len()
        invariant
            i <= marks@.len(),
            text@ == seq![cell.character] + marks@.take(i as int),
        decreases marks@.len() - i,
    {
        text.push(marks[i]);
        assert(text@ =~= seq![cell.character] + marks@.take(i + 1));
        i = i + 1;
    }
    assert(marks@.take(i as int) =~= marks@);
    text
}

fn read_ascii(text: &str) -> (ascii: bool)
    ensures
        ascii == is_ascii(text@),
{
    let chars: Vec<char> = crate::text::chars_of(text);
    let mut at: usize = 0;
    while at < chars.len()
        invariant
            chars@ == text@,
            at <= chars@.len(),
            forall|i: int| 0 <= i < at ==> #[trigger] text@[i] <= '\u{7f}',
        decreases chars@.len() - at,
    {
        if chars[at] > '\u{7f}' {
            assert(text@[at as int] > '\u{7f}');
            return false;
        }
        at = at + 1;
    }
    true
}

/// What is painted for a row: its chunks of text and its backgrounds.
pub fn terminal_row_data(snapshot: &TerminalSnapshot, row: usize, options: RowOptions) -> (painted: (
    Vec<TerminalTextChunk>,
    Vec<TerminalBackgroundSpan>,
))
    requires
        snapshot.size.within_limits(),
        row <= i32::MAX,
    ensures
        chunk_views(painted.0@) == painted_row(snapshot@, row as int, options).chunks,
        painted.1@ == painted_row(snapshot@, row as int, options).backgrounds,
{
    let mut painter = RowPainter {
        chunks: Vec::new(),
        backgrounds: Vec::new(),
        start: 0,
        text: String::new(),
        runs: Vec::new(),
        cells: Vec::new(),
        scaled: false,
    };
    let columns: usize = snapshot.size.columns;
    let cursor: (usize, usize) = terminal_cursor_position(snapshot);
    let mut column: usize = 0;
    proof {
        assert(painter.view() =~= RowView::blank());
        assert(cell_views(painter.cells@) =~= Seq::empty());
    }
    while column < columns
        invariant
            snapshot.size.within_limits(),
            columns == snapshot.size.columns,
            row <= i32::MAX,
            column <= columns,
            (cursor.0 as int, cursor.1 as int) == cursor_cell(snapshot@),
            painter.view() == RowView::blank().with_cells(
                snapshot@,
                row as int,
                column as int,
                options,
            ),
            painter.fits(column as int),
        decreases columns - column,
    {
        paint_cell(&mut painter, snapshot, row, column, cursor, options);
        column = column + 1;
    }
    painter.flush(Ghost(column as int));
    (painter.chunks, painter.backgrounds)
}

fn paint_cell(
    painter: &mut RowPainter,
    snapshot: &TerminalSnapshot,
    row: usize,
    column: usize,
    cursor: (usize, usize),
    options: RowOptions,
)
    requires
        snapshot.size.within_limits(),
        row <= i32::MAX,
        column < snapshot.size.columns,
        (cursor.0 as int, cursor.1 as int) == cursor_cell(snapshot@),
        old(painter).fits(column as int),
    ensures
        final(painter).view() == old(painter).view().with_cell(
            snapshot@,
            row as int,
            column as int,
            options,
        ),
        final(painter).fits(column + 1),
{
    let cell: &TerminalCell = match snapshot.cell(row, column) {
        Some(cell) => cell,
        None => {
            return;
        },
    };
    if cell.flags.wide_spacer() {
        painter.flush(Ghost(column as int));
        return;
    }
    let (foreground, background) = paint_colors(snapshot, row, column, cell, cursor, options);
    let wide: bool = cell.flags.wide();
    let asked: usize = if wide {
        2
    } else {
        1
    };
    let width_columns: usize = asked.min(snapshot.size.columns - column);
    let ground: u32 = color_to_rgb(background, false, options.theme);
    if ground != options.theme.terminal_background {
        push_terminal_background(&mut painter.backgrounds, column, width_columns, ground);
    }
    assert(painter.view() == old(painter).view().with_ground(
        snapshot@,
        row as int,
        column as int,
        cell@,
        options,
    ));
    if cell.flags.leading_wide_spacer() {
        painter.flush(Ghost(column + 1));
        return;
    }
    let text: String = painted_text(cell);
    let run = TerminalTextRun {
        len: text.as_str().as_bytes().len(),
        style: TextStyle {
            bold: cell.flags.bold(),
            italic: cell.flags.italic(),
            underline: cell.flags.underline(),
            strike: cell.flags.strike(),
            color: color_to_rgb(foreground, true, options.theme),
        },
    };
    let shown = TerminalTextCell { text, run, width_columns };
    assert(shown@ == text_cell(snapshot@, row as int, column as int, cell@, options));
    if wide {
        painter.flush(Ghost(column + 1));
        painter.add_wide(column, shown);
    } else {
        painter.add_narrow(column, shown);
    }
}

fn paint_colors(
    snapshot: &TerminalSnapshot,
    row: usize,
    column: usize,
    cell: &TerminalCell,
    cursor: (usize, usize),
    options: RowOptions,
) -> (colors: (TerminalColor, TerminalColor))
    requires
        row <= i32::MAX,
        (cursor.0 as int, cursor.1 as int) == cursor_cell(snapshot@),
    ensures
        colors == painted_colors(snapshot@, row as int, column as int, cell@, options),
{
    let (own, behind) = terminal_cell_colors(cell, options.theme);
    if snapshot.cursor.visible && cursor.0 == row && cursor.1 == column && options.cursor_focused {
        return (
            theme_color(options.theme.cursor_foreground),
            theme_color(options.theme.cursor_background),
        );
    }
    let selected: bool = match options.selected {
        Some((start, end)) => contains_position(
            start,
            end,
            TerminalCellPosition { row: row as i32, column },
        ),
        None => false,
    };
    if selected {
        (own, theme_color(options.theme.selection_background))
    } else {
        (own, behind)
    }
}

impl RowPainter {
    fn add_wide(&mut self, column: usize, cell: TerminalTextCell)
        requires
            old(self).fits(column + 1),
            old(self).text@.len() == 0,
        ensures
            final(self).view() == old(self).view().with_text(column as int, cell@, true),
            final(self).fits(column + 1),
    {
        let ghost shown = cell@;
        let ghost earlier = self.chunks@;
        let width_columns: usize = cell.width_columns;
        let text: String = cell.text.as_str().to_owned();
        let mut runs: Vec<TerminalTextRun> = Vec::new();
        runs.push(cell.run);
        let mut cells: Vec<TerminalTextCell> = Vec::new();
        cells.push(cell);
        let chunk = TerminalTextChunk {
            start_column: column,
            width_columns,
            span_columns: width_columns,
            requires_cell_scaling: true,
            text,
            runs,
            cells,
        };
        let ghost pushed = chunk@;
        self.chunks.push(chunk);
        proof {
            assert(pushed.cells =~= seq![shown]);
            assert(pushed.runs =~= seq![shown.run]);
            assert(chunk_views(self.chunks@) =~= chunk_views(earlier).push(pushed));
        }
    }

    fn add_narrow(&mut self, column: usize, cell: TerminalTextCell)
        requires
            old(self).fits(column as int) || old(self).fits(column + 1),
            0 <= columns_of(cell_views(old(self).cells@)) <= column,
            cell.width_columns <= 1,
            cell.run.len == encode_utf8(cell.text@).len(),
        ensures
            final(self).view() == old(self).view().with_text(column as int, cell@, false),
            final(self).backgrounds@ == old(self).backgrounds@,
            run_bytes(final(self).runs@) == encode_utf8(final(self).text@).len(),
            0 <= columns_of(cell_views(final(self).cells@)) <= column + 1,
    {
        let ghost shown = cell@;
        let ghost earlier = self.cells@;
        if self.text.as_str().is_empty() {
            self.start = column;
        }
        if !read_ascii(cell.text.as_str()) {
            self.scaled = true;
        }
        let ghost front = self.text@;
        let run: TerminalTextRun = cell.run;
        self.text.append(cell.text.as_str());
        let whole: usize = self.text.as_str().as_bytes().len();
        proof {
            lemma_encode_concat(front, cell.text@);
            assert(whole == run_bytes(self.runs@) + run.len);
            lemma_with_run(self.runs@, run);
        }
        append_terminal_text_run(&mut self.runs, run);
        self.cells.push(cell);
        proof {
            assert(cell_views(self.cells@) =~= cell_views(earlier).push(shown));
            assert(cell_views(self.cells@).drop_last() =~= cell_views(earlier));
        }
    }
}

/// The text of some chunks.
pub open spec fn chunks_text(chunks: Seq<ChunkView>) -> Seq<char>
    decreases chunks.len(),
{
    if chunks.len() == 0 {
        Seq::empty()
    } else {
        chunks_text(chunks.drop_last()) + chunks.last().text
    }
}

proof fn lemma_flushed_text(painted: RowView)
    ensures
        chunks_text(painted.flushed().chunks) + painted.flushed().text == chunks_text(
            painted.chunks,
        ) + painted.text,
{
    if painted.text.len() == 0 {
    } else {
        let next = painted.flushed();
        assert(next.chunks.drop_last() =~= painted.chunks);
        assert(chunks_text(next.chunks) + next.text =~= chunks_text(painted.chunks) + painted.text);
    }
}

proof fn lemma_painted_text(snapshot: SnapshotView, row: int, columns: int, options: RowOptions)
    requires
        0 <= columns,
    ensures
        ({
            let painted = RowView::blank().with_cells(snapshot, row, columns, options);
            chunks_text(painted.chunks) + painted.text == snapshot.row_text(row, columns)
        }),
    decreases columns,
{
    if columns == 0 {
        assert(chunks_text(Seq::empty()) + Seq::<char>::empty() =~= Seq::empty());
    } else {
        lemma_painted_text(snapshot, row, columns - 1, options);
        let before = RowView::blank().with_cells(snapshot, row, columns - 1, options);
        let shown = chunks_text(before.chunks) + before.text;
        if let Some(cell) = snapshot.cell_at(row, columns - 1) {
            if cell.style.wide_spacer {
                lemma_flushed_text(before);
                assert(shown + Seq::<char>::empty() =~= shown);
            } else {
                let grounded = before.with_ground(snapshot, row, columns - 1, cell, options);
                if cell.style.leading_wide_spacer {
                    lemma_flushed_text(grounded);
                    assert(shown + Seq::<char>::empty() =~= shown);
                } else {
                    let text = text_cell(snapshot, row, columns - 1, cell, options);
                    let after = grounded.with_text(columns - 1, text, cell.style.wide);
                    if cell.style.wide {
                        lemma_flushed_text(grounded);
                        let flushed = grounded.flushed();
                        assert(after.chunks.drop_last() =~= flushed.chunks);
                        assert(chunks_text(after.chunks) + after.text =~= chunks_text(
                            flushed.chunks,
                        ) + flushed.text + text.text);
                    } else {
                        assert(chunks_text(after.chunks) + after.text =~= shown + text.text);
                    }
                }
            }
        }
    }
}

/// Nothing of a row's text is left out: its chunks together have the text of
/// the row.
pub proof fn chunks_hold_the_text_of_the_row(
    snapshot: SnapshotView,
    row: int,
    options: RowOptions,
)
    ensures
        chunks_text(painted_row(snapshot, row, options).chunks) == snapshot.row_text(
            row,
            snapshot.size.columns as int,
        ),
{
    let columns = snapshot.size.columns as int;
    let painted = RowView::blank().with_cells(snapshot, row, columns, options);
    lemma_painted_text(snapshot, row, columns, options);
    lemma_flushed_text(painted);
    assert(chunks_text(painted.flushed().chunks) + painted.flushed().text =~= chunks_text(
        painted.flushed().chunks,
    ));
}

/// The cursor is drawn where it stands, and on the first half of a wide
/// character where it stands on the second one.
pub proof fn the_cursor_is_drawn_on_its_cell(snapshot: SnapshotView)
    requires
        snapshot.cursor.row < snapshot.size.lines,
        0 < snapshot.cursor.column < snapshot.size.columns,
        snapshot.cell_at(snapshot.cursor.row as int, snapshot.cursor.column as int) is Some,
    ensures
        ({
            let (row, column) = (snapshot.cursor.row as int, snapshot.cursor.column as int);
            let cell = snapshot.cell_at(row, column)->0;
            &&& !cell.style.wide_spacer ==> cursor_cell(snapshot) == (row, column)
            &&& !cell.style.wide_spacer ==> cursor_width(snapshot) == if cell.style.wide {
                2int
            } else {
                1
            }
            &&& cell.style.wide_spacer ==> cursor_cell(snapshot) == (row, column - 1)
        }),
{
}

/// A cell has the cursor's colours where the cursor is drawn in a focused
/// terminal, else the selection's background where it is selected, else its own.
pub proof fn a_cell_shows_cursor_and_selection(
    snapshot: SnapshotView,
    row: i32,
    column: usize,
    cell: CellView,
    options: RowOptions,
    first: TerminalCellPosition,
    last: TerminalCellPosition,
)
    ensures
        ({
            let (own, behind) = cell_colors(cell, options.theme);
            let painted = painted_colors(snapshot, row as int, column as int, cell, options);
            let under_cursor = snapshot.cursor.visible && options.cursor_focused && cursor_cell(
                snapshot,
            ) == (row as int, column as int);
            let selected = (first.row < row || (first.row == row && first.column <= column)) && (
            row < last.row || (row == last.row && column <= last.column));
            &&& under_cursor ==> painted == (
                theme_rgb(options.theme.cursor_foreground),
                theme_rgb(options.theme.cursor_background),
            )
            &&& !under_cursor && options.selected == Some((first, last)) ==> painted == (
                own,
                if selected {
                    theme_rgb(options.theme.selection_background)
                } else {
                    behind
                },
            )
            &&& !under_cursor && options.selected is None ==> painted == (own, behind)
        }),
{
}

/// The colour behind a column.
pub open spec fn ground_at(spans: Seq<TerminalBackgroundSpan>, column: int) -> Option<u32>
    decreases spans.len(),
{
    if spans.len() == 0 {
        None
    } else if spans.last().start_column <= column < spans.last().start_column
        + spans.last().width_columns {
        Some(spans.last().color)
    } else {
        ground_at(spans.drop_last(), column)
    }
}

/// A background covers its columns and changes no other.
pub proof fn a_background_covers_its_columns(
    spans: Seq<TerminalBackgroundSpan>,
    span: TerminalBackgroundSpan,
    column: int,
)
    requires
        spans.len() > 0 ==> spans.last().start_column + spans.last().width_columns
            + span.width_columns <= usize::MAX,
    ensures
        ground_at(with_background(spans, span), column) == if span.start_column <= column
            < span.start_column + span.width_columns {
            Some(span.color)
        } else {
            ground_at(spans, column)
        },
{
    let after = with_background(spans, span);
    if span.width_columns > 0 {
        if spans.len() > 0 && spans.last().color == span.color && spans.last().start_column
            + spans.last().width_columns == span.start_column {
            assert(after.drop_last() =~= spans.drop_last());
        } else {
            assert(after.drop_last() =~= spans);
        }
    }
}

/// The style at a byte of a text.
pub open spec fn style_at(runs: Seq<TerminalTextRun>, byte: int) -> Option<TextStyle>
    decreases runs.len(),
{
    if runs.len() == 0 {
        None
    } else if run_bytes(runs.drop_last()) <= byte < run_bytes(runs) {
        Some(runs.last().style)
    } else {
        style_at(runs.drop_last(), byte)
    }
}

/// A run of text has its style behind the runs before it, which keep theirs.
pub proof fn a_run_keeps_the_styles_before_it(
    runs: Seq<TerminalTextRun>,
    run: TerminalTextRun,
    byte: int,
)
    requires
        runs.len() > 0 ==> runs.last().len + run.len <= usize::MAX,
    ensures
        run_bytes(with_run(runs, run)) == run_bytes(runs) + run.len,
        style_at(with_run(runs, run), byte) == if run_bytes(runs) <= byte < run_bytes(runs)
            + run.len {
            Some(run.style)
        } else {
            style_at(runs, byte)
        },
{
    let after = with_run(runs, run);
    if runs.len() > 0 && runs.last().style == run.style {
        assert(after.drop_last() =~= runs.drop_last());
    } else {
        assert(after.drop_last() =~= runs);
    }
}

/// All cells of a row are there, and none of them is wide or half of a wide one.
pub open spec fn is_narrow_row(snapshot: SnapshotView, row: int) -> bool {
    forall|column: int|
        0 <= column < snapshot.size.columns ==> match #[trigger] snapshot.cell_at(row, column) {
            Some(cell) => !cell.style.wide && !cell.style.wide_spacer
                && !cell.style.leading_wide_spacer,
            None => false,
        }
}

proof fn lemma_narrow_cells(
    snapshot: SnapshotView,
    row: int,
    columns: int,
    options: RowOptions,
)
    requires
        0 <= columns <= snapshot.size.columns,
        is_narrow_row(snapshot, row),
    ensures
        ({
            let painted = RowView::blank().with_cells(snapshot, row, columns, options);
            &&& painted.chunks.len() == 0
            &&& painted.start == 0
            &&& painted.cells == Seq::new(
                columns as nat,
                |i: int| text_cell(snapshot, row, i, snapshot.cell_at(row, i)->0, options),
            )
            &&& painted.text.len() >= columns
            &&& columns_of(painted.cells) == columns
            &&& painted.backgrounds.len() > 0 ==> painted.backgrounds.last().start_column
                + painted.backgrounds.last().width_columns <= columns
            &&& forall|column: int| #![trigger ground_at(painted.backgrounds, column)]
                ground_at(painted.backgrounds, column) == if 0 <= column < columns && rgb_of(
                    painted_colors(
                        snapshot,
                        row,
                        column,
                        snapshot.cell_at(row, column)->0,
                        options,
                    ).1,
                    false,
                    options.theme,
                ) != options.theme.terminal_background {
                    Some(
                        rgb_of(
                            painted_colors(
                                snapshot,
                                row,
                                column,
                                snapshot.cell_at(row, column)->0,
                                options,
                            ).1,
                            false,
                            options.theme,
                        ),
                    )
                } else {
                    None
                }
        }),
    decreases columns,
{
    if columns == 0 {
        let painted = RowView::blank();
        assert(painted.cells =~= Seq::new(
            0,
            |i: int| text_cell(snapshot, row, i, snapshot.cell_at(row, i)->0, options),
        ));
    } else {
        let column = columns - 1;
        lemma_narrow_cells(snapshot, row, column, options);
        let before = RowView::blank().with_cells(snapshot, row, column, options);
        let cell = snapshot.cell_at(row, column)->0;
        assert(snapshot.cell_at(row, column) is Some);
        let text = text_cell(snapshot, row, column, cell, options);
        let after = before.with_cell(snapshot, row, column, options);
        let grounded = before.with_ground(snapshot, row, column, cell, options);
        assert(cell_width(snapshot, column, cell) == 1);
        assert(text.text.len() >= 1);
        assert(after.cells == before.cells.push(text));
        assert(after.cells.drop_last() =~= before.cells);
        assert(after.cells =~= Seq::new(
            columns as nat,
            |i: int| text_cell(snapshot, row, i, snapshot.cell_at(row, i)->0, options),
        ));
        let span = TerminalBackgroundSpan {
            start_column: column as usize,
            width_columns: 1,
            color: rgb_of(
                painted_colors(snapshot, row, column, cell, options).1,
                false,
                options.theme,
            ),
        };
        assert forall|at: int| #![trigger ground_at(after.backgrounds, at)]
            span.color != options.theme.terminal_background implies ground_at(
            after.backgrounds,
            at,
        ) == if at == column {
            Some(span.color)
        } else {
            ground_at(before.backgrounds, at)
        } by {
            a_background_covers_its_columns(before.backgrounds, span, at);
        }
    }
}

/// A row without wide characters is painted as one piece of text from the first
/// column on, cell by cell, each with its own characters, style and colour; behind
/// each cell is its background, where that is not the terminal's.
pub proof fn a_row_is_painted_cell_by_cell(
    snapshot: SnapshotView,
    row: int,
    column: int,
    options: RowOptions,
)
    requires
        0 <= column < snapshot.size.columns,
        is_narrow_row(snapshot, row),
    ensures
        ({
            let painted = painted_row(snapshot, row, options);
            let cell = snapshot.cell_at(row, column)->0;
            let (over, behind) = painted_colors(snapshot, row, column, cell, options);
            let shown = painted.chunks[0].cells[column];
            let ground = rgb_of(behind, false, options.theme);
            &&& painted.chunks.len() == 1
            &&& painted.chunks[0].start == 0
            &&& painted.chunks[0].width == 1
            &&& painted.chunks[0].span == snapshot.size.columns
            &&& painted.chunks[0].cells.len() == snapshot.size.columns
            &&& shown.text == seq![cell.character] + cell.zerowidth
            &&& shown.width == 1
            &&& shown.run.style.bold == cell.style.bold
            &&& shown.run.style.italic == cell.style.italic
            &&& shown.run.style.underline == cell.style.underline
            &&& shown.run.style.strike == cell.style.strike
            &&& shown.run.style.color == rgb_of(over, true, options.theme)
            &&& ground_at(painted.backgrounds, column) == if ground
                == options.theme.terminal_background {
                None
            } else {
                Some(ground)
            }
        }),
{
    lemma_narrow_cells(snapshot, row, snapshot.size.columns as int, options);
    let painted = RowView::blank().with_cells(
        snapshot,
        row,
        snapshot.size.columns as int,
        options,
    );
    assert(painted.flushed().backgrounds == painted.backgrounds);
}

/// A wide character is painted on its own, at its column and over two columns,
/// and the text before it ends there.
pub proof fn a_wide_character_is_painted_on_its_own(
    painted: RowView,
    column: int,
    cell: TextCellView,
)
    ensures
        ({
            let after = painted.with_text(column, cell, true);
            let last = after.chunks.last();
            &&& last.start == column
            &&& last.span == cell.width
            &&& last.width == cell.width
            &&& last.scaled
            &&& last.text == cell.text
            &&& last.cells == seq![cell]
            &&& after.text.len() == 0
            &&& after.chunks.len() == painted.chunks.len() + if painted.text.len() > 0 {
                2int
            } else {
                1
            }
            &&& painted.text.len() > 0 ==> after.chunks[painted.chunks.len() as int].text
                == painted.text && after.chunks[painted.chunks.len() as int].start
                == painted.start
        }),
{
}

/// A wide cell takes two columns and any other one, but none reaches beyond the
/// last column.
pub proof fn a_wide_cell_takes_two_columns(snapshot: SnapshotView, column: int, cell: CellView)
    requires
        0 <= column < snapshot.size.columns,
    ensures
        !cell.style.wide ==> cell_width(snapshot, column, cell) == 1,
        cell.style.wide && column + 2 <= snapshot.size.columns ==> cell_width(
            snapshot,
            column,
            cell,
        ) == 2,
        cell.style.wide && column + 1 == snapshot.size.columns ==> cell_width(
            snapshot,
            column,
            cell,
        ) == 1,
{
}

/// A cursor beyond the screen is drawn at its nearest cell, one cell wide where
/// nothing is there.
pub proof fn the_cursor_stays_on_the_screen(snapshot: SnapshotView)
    requires
        snapshot.size.lines >= 1,
        snapshot.size.columns >= 1,
        forall|row: int, column: int|
            (#[trigger] snapshot.cell_at(row, column)) is Some ==> !snapshot.cell_at(
                row,
                column,
            )->0.style.wide_spacer,
    ensures
        ({
            let (row, column) = cursor_cell(snapshot);
            &&& row == if snapshot.cursor.row < snapshot.size.lines {
                snapshot.cursor.row as int
            } else {
                snapshot.size.lines - 1
            }
            &&& column == if snapshot.cursor.column < snapshot.size.columns {
                snapshot.cursor.column as int
            } else {
                snapshot.size.columns - 1
            }
            &&& snapshot.cell_at(row, column) is None ==> cursor_width(snapshot) == 1
        }),
{
}

} // verus!

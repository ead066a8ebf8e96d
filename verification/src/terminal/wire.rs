//! The shape in which screens travel between processes.
use vstd::prelude::*;

use super::snapshot::{
    flat_cell, row_view, rows_from_flat_cells, rows_view, CellStyle, CellView, SnapshotView,
    TerminalCell, TerminalCellFlags, TerminalColor, TerminalCursor, TerminalModes,
    TerminalProcessState, TerminalRowSnapshot, TerminalSize, TerminalSnapshot,
};
use crate::ids::TerminalId;
use crate::shared::share;

verus! {

/// A cell on the wire. A field that is left out stands for that of a blank
/// cell.
#[derive(Debug, PartialEq, Eq)]
pub struct CellWire {
    pub character: Option<char>,
    pub fg: Option<TerminalColor>,
    pub bg: Option<TerminalColor>,
    pub flags: Option<CellStyle>,
    pub zerowidth: Option<Vec<char>>,
}

/// A cell on the wire by its values.
#[verifier::ext_equal]
pub struct CellWireView {
    pub character: Option<char>,
    pub fg: Option<TerminalColor>,
    pub bg: Option<TerminalColor>,
    pub style: Option<CellStyle>,
    pub zerowidth: Option<Seq<char>>,
}

impl View for CellWire {
    type V = CellWireView;

    open spec fn view(&self) -> CellWireView {
        CellWireView {
            character: self.character,
            fg: self.fg,
            bg: self.bg,
            style: self.flags,
            zerowidth: match self.zerowidth {
                Some(marks) => Some(marks@),
                None => None,
            },
        }
    }
}

/// A field on the wire: left out of a compact cell where it has its default.
pub open spec fn sent_field<T>(value: T, default: T, compact: bool) -> Option<T> {
    if compact && value == default {
        None
    } else {
        Some(value)
    }
}

/// A field off the wire.
pub open spec fn received_field<T>(field: Option<T>, default: T) -> T {
    match field {
        Some(value) => value,
        None => default,
    }
}

pub open spec fn sent_cell(cell: CellView, compact: bool) -> CellWireView {
    let blank = CellView::blank();
    CellWireView {
        character: sent_field(cell.character, blank.character, compact),
        fg: sent_field(cell.fg, blank.fg, compact),
        bg: sent_field(cell.bg, blank.bg, compact),
        style: sent_field(cell.style, blank.style, compact),
        zerowidth: sent_field(cell.zerowidth, blank.zerowidth, compact),
    }
}

impl CellWireView {
    pub open spec fn received(self) -> CellView {
        let blank = CellView::blank();
        CellView {
            character: received_field(self.character, blank.character),
            fg: received_field(self.fg, blank.fg),
            bg: received_field(self.bg, blank.bg),
            style: received_field(self.style, blank.style),
            zerowidth: received_field(self.zerowidth, blank.zerowidth),
        }
    }

    /// How many fields are written.
    pub open spec fn fields(self) -> int {
        (if self.character is Some { 1int } else { 0 }) + (if self.fg is Some { 1int } else { 0 })
            + (if self.bg is Some { 1int } else { 0 }) + (if self.style is Some { 1int } else { 0 })
            + (if self.zerowidth is Some { 1int } else { 0 })
    }
}

fn copy_marks(marks: &[char]) -> (copy: Vec<char>)
    ensures
        copy@ == marks@,
{
    let mut copy: Vec<char> = Vec::new();
    let mut i: usize = 0;
    while i < marks.len()
        invariant
            i <= marks@.len(),
            copy@ == marks@.take(i as int),
        decreases marks@.len() - i,
    {
        copy.push(marks[i]);
        i = i + 1;
        assert(copy@ =~= marks@.take(i as int));
    }
    assert(copy@ =~= marks@);
    copy
}

impl CellWire {
    /// The fields of a cell that are written. The full shape has all of
    /// them; the compact one has those that differ from a blank cell's.
    pub fn from_cell(cell: &TerminalCell, compact: bool) -> (wire: Self)
        ensures
            wire@ == sent_cell(cell@, compact),
    {
        let style: CellStyle = cell.flags.style();
        let plain: CellStyle = TerminalCellFlags::plain().style();
        let marks: &[char] = cell.marks();
        let foreground: TerminalColor = TerminalColor::Named { value: 256 };
        let background: TerminalColor = TerminalColor::Named { value: 257 };
        proof {
            assert(marks@.len() == 0 ==> marks@ =~= Seq::<char>::empty());
        }
        CellWire {
            character: if compact && cell.character == ' ' {
                None
            } else {
                Some(cell.character)
            },
            fg: if compact && cell.fg == foreground {
                None
            } else {
                Some(cell.fg)
            },
            bg: if compact && cell.bg == background {
                None
            } else {
                Some(cell.bg)
            },
            flags: if compact && style == plain {
                None
            } else {
                Some(style)
            },
            zerowidth: if compact && marks.len() == 0 {
                None
            } else {
                Some(copy_marks(marks))
            },
        }
    }

    /// How many fields the cell is written with.
    pub fn field_count(&self) -> (count: usize)
        ensures
            count == self@.fields(),
    {
        let mut count: usize = 0;
        if self.character.is_some() {
            count = count + 1;
        }
        if self.fg.is_some() {
            count = count + 1;
        }
        if self.bg.is_some() {
            count = count + 1;
        }
        if self.flags.is_some() {
            count = count + 1;
        }
        if self.zerowidth.is_some() {
            count = count + 1;
        }
        count
    }

    /// The cell that was written.
    pub fn to_cell(&self) -> (cell: TerminalCell)
        ensures
            cell@ == self@.received(),
    {
        let character: char = match self.character {
            Some(character) => character,
            None => ' ',
        };
        let fg: TerminalColor = match self.fg {
            Some(fg) => fg,
            None => TerminalColor::Named { value: 256 },
        };
        let bg: TerminalColor = match self.bg {
            Some(bg) => bg,
            None => TerminalColor::Named { value: 257 },
        };
        let flags: TerminalCellFlags = match self.flags {
            Some(style) => TerminalCellFlags::from_style(style),
            None => TerminalCellFlags::plain(),
        };
        match &self.zerowidth {
            Some(marks) => TerminalCell::with_marks(character, fg, bg, flags, marks.as_slice()),
            None => {
                let none: Vec<char> = Vec::new();
                TerminalCell::with_marks(character, fg, bg, flags, none.as_slice())
            },
        }
    }
}

/// A cell comes off the wire as it went on, in either shape.
pub proof fn a_cell_survives_the_wire(cell: CellView, compact: bool)
    ensures
        sent_cell(cell, compact).received() == cell,
{
    assert(sent_cell(cell, compact).received() =~= cell);
}

/// The full shape names every field, and the compact shape of a blank cell
/// names none.
pub proof fn blank_cells_are_compact(cell: CellView)
    ensures
        sent_cell(cell, false).fields() == 5,
        sent_cell(cell, true).fields() == 0 <==> cell == CellView::blank(),
{
    if sent_cell(cell, true).fields() == 0 {
        assert(cell =~= CellView::blank());
    }
}

/// A screen on the wire. Its visible rows travel as one run of cells, and the
/// extent of the history does not travel.
#[derive(Debug, PartialEq, Eq)]
pub struct SnapshotWire {
    pub terminal_id: TerminalId,
    pub size: TerminalSize,
    pub process_name: String,
    pub cwd: String,
    pub display_offset: usize,
    pub viewport_position: i64,
    pub cursor: TerminalCursor,
    pub modes: TerminalModes,
    pub process: TerminalProcessState,
    pub revision: u64,
    pub cells: Vec<CellWire>,
    pub rows_before: Vec<Vec<CellWire>>,
    pub rows_after: Vec<Vec<CellWire>>,
}

/// Some cells on the wire by their values.
pub open spec fn run_view(cells: Seq<CellWire>) -> Seq<CellWireView> {
    cells.map_values(|cell: CellWire| cell@)
}

/// Some rows on the wire by their values.
pub open spec fn runs_view(rows: Seq<Vec<CellWire>>) -> Seq<Seq<CellWireView>> {
    rows.map_values(|row: Vec<CellWire>| run_view(row@))
}

/// A screen on the wire by its values.
#[verifier::ext_equal]
pub struct SnapshotWireView {
    pub terminal_id: TerminalId,
    pub size: TerminalSize,
    pub process_name: Seq<char>,
    pub cwd: Seq<char>,
    pub display_offset: usize,
    pub viewport_position: i64,
    pub cursor: TerminalCursor,
    pub modes: TerminalModes,
    pub process: TerminalProcessState,
    pub revision: u64,
    pub cells: Seq<CellWireView>,
    pub rows_before: Seq<Seq<CellWireView>>,
    pub rows_after: Seq<Seq<CellWireView>>,
}

impl View for SnapshotWire {
    type V = SnapshotWireView;

    open spec fn view(&self) -> SnapshotWireView {
        SnapshotWireView {
            terminal_id: self.terminal_id,
            size: self.size,
            process_name: self.process_name@,
            cwd: self.cwd@,
            display_offset: self.display_offset,
            viewport_position: self.viewport_position,
            cursor: self.cursor,
            modes: self.modes,
            process: self.process,
            revision: self.revision,
            cells: run_view(self.cells@),
            rows_before: runs_view(self.rows_before@),
            rows_after: runs_view(self.rows_after@),
        }
    }
}

/// The cells of some rows, one row after the other.
pub open spec fn flattened(rows: Seq<Seq<CellView>>) -> Seq<CellView>
    decreases rows.len(),
{
    if rows.len() == 0 {
        Seq::empty()
    } else {
        flattened(rows.drop_last()) + rows.last()
    }
}

pub open spec fn sent_run(cells: Seq<CellView>, compact: bool) -> Seq<CellWireView> {
    cells.map_values(|cell: CellView| sent_cell(cell, compact))
}

pub open spec fn sent_rows(rows: Seq<Seq<CellView>>, compact: bool) -> Seq<Seq<CellWireView>> {
    rows.map_values(|row: Seq<CellView>| sent_run(row, compact))
}

pub open spec fn received_run(cells: Seq<CellWireView>) -> Seq<CellView> {
    cells.map_values(|cell: CellWireView| cell.received())
}

pub open spec fn received_rows(rows: Seq<Seq<CellWireView>>) -> Seq<Seq<CellView>> {
    rows.map_values(|row: Seq<CellWireView>| received_run(row))
}

/// A run of cells laid out in the rows of a screen; missing cells are blank.
pub open spec fn laid_out(cells: Seq<CellView>, size: TerminalSize) -> Seq<Seq<CellView>> {
    Seq::new(
        size.lines as nat,
        |row: int|
            Seq::new(
                size.columns as nat,
                |column: int|
                    if row * size.columns + column < cells.len() {
                        cells[row * size.columns + column]
                    } else {
                        CellView::blank()
                    },
            ),
    )
}

pub open spec fn sent_snapshot(snapshot: SnapshotView, compact: bool) -> SnapshotWireView {
    SnapshotWireView {
        terminal_id: snapshot.terminal_id,
        size: snapshot.size,
        process_name: snapshot.process_name,
        cwd: snapshot.cwd,
        display_offset: snapshot.display_offset,
        viewport_position: snapshot.viewport_position,
        cursor: snapshot.cursor,
        modes: snapshot.modes,
        process: snapshot.process,
        revision: snapshot.revision,
        cells: sent_run(flattened(snapshot.rows), compact),
        rows_before: sent_rows(snapshot.rows_before, compact),
        rows_after: sent_rows(snapshot.rows_after, compact),
    }
}

impl SnapshotWireView {
    pub open spec fn received(self) -> SnapshotView {
        SnapshotView {
            terminal_id: self.terminal_id,
            size: self.size,
            process_name: self.process_name,
            cwd: self.cwd,
            display_offset: self.display_offset,
            viewport_position: self.viewport_position,
            cursor: self.cursor,
            modes: self.modes,
            process: self.process,
            revision: self.revision,
            history_len: 0,
            history_bottom: 0,
            rows: laid_out(received_run(self.cells), self.size),
            rows_before: received_rows(self.rows_before),
            rows_after: received_rows(self.rows_after),
        }
    }
}

/// Appends the cells of a row to a run.
fn append_row(run: &mut Vec<CellWire>, row: &TerminalRowSnapshot, compact: bool)
    ensures
        run_view(final(run)@) == run_view(old(run)@) + sent_run(row_view(row@), compact),
{
    let ghost sent = sent_run(row_view(row@), compact);
    let ghost before = run_view(run@);
    let mut i: usize = 0;
    assert(run_view(run@) =~= before + sent.take(0));
    while i < row.len()
        invariant
            i <= row@.len(),
            sent == sent_run(row_view(row@), compact),
            run_view(run@) == before + sent.take(i as int),
        decreases row@.len() - i,
    {
        let ghost earlier = run@;
        let wire = CellWire::from_cell(&row[i], compact);
        run.push(wire);
        i = i + 1;
        assert(run_view(run@) =~= run_view(earlier).push(wire@));
        assert(sent.take(i as int) =~= sent.take(i - 1).push(wire@));
        assert(run_view(run@) =~= before + sent.take(i as int));
    }
    assert(sent.take(i as int) =~= sent);
}

fn send_rows(rows: &Vec<TerminalRowSnapshot>, compact: bool) -> (sent: Vec<Vec<CellWire>>)
    ensures
        runs_view(sent@) == sent_rows(rows_view(rows@), compact),
{
    let mut sent: Vec<Vec<CellWire>> = Vec::new();
    let mut i: usize = 0;
    while i < rows.len()
        invariant
            i <= rows@.len(),
            sent@.len() == i,
            forall|at: int|
                0 <= at < i ==> run_view((#[trigger] sent@[at])@) == sent_run(
                    row_view(rows@[at]@),
                    compact,
                ),
        decreases rows@.len() - i,
    {
        let mut run: Vec<CellWire> = Vec::new();
        append_row(&mut run, &rows[i], compact);
        assert(run_view(Seq::<CellWire>::empty()) + sent_run(row_view(rows@[i as int]@), compact)
            =~= sent_run(row_view(rows@[i as int]@), compact));
        sent.push(run);
        i = i + 1;
    }
    assert(runs_view(sent@) =~= sent_rows(rows_view(rows@), compact));
    sent
}

fn receive_run(run: &Vec<CellWire>) -> (cells: Vec<TerminalCell>)
    ensures
        row_view(cells@) == received_run(run_view(run@)),
{
    let mut cells: Vec<TerminalCell> = Vec::new();
    let mut i: usize = 0;
    while i < run.len()
        invariant
            i <= run@.len(),
            cells@.len() == i,
            forall|at: int| 0 <= at < i ==> (#[trigger] cells@[at])@ == run@[at]@.received(),
        decreases run@.len() - i,
    {
        cells.push(run[i].to_cell());
        i = i + 1;
    }
    assert(row_view(cells@) =~= received_run(run_view(run@)));
    cells
}

fn receive_rows(rows: &Vec<Vec<CellWire>>) -> (received: Vec<TerminalRowSnapshot>)
    ensures
        rows_view(received@) == received_rows(runs_view(rows@)),
{
    let mut received: Vec<TerminalRowSnapshot> = Vec::new();
    let mut i: usize = 0;
    while i < rows.len()
        invariant
            i <= rows@.len(),
            received@.len() == i,
            forall|at: int|
                0 <= at < i ==> row_view((#[trigger] received@[at])@) == received_run(
                    run_view(rows@[at]@),
                ),
        decreases rows@.len() - i,
    {
        received.push(share(receive_run(&rows[i])));
        i = i + 1;
    }
    assert(rows_view(received@) =~= received_rows(runs_view(rows@)));
    received
}

impl SnapshotWire {
    /// A screen as it is written.
    pub fn from_snapshot(snapshot: &TerminalSnapshot, compact: bool) -> (wire: Self)
        ensures
            wire@ == sent_snapshot(snapshot@, compact),
    {
        let ghost rows = snapshot@.rows;
        let mut cells: Vec<CellWire> = Vec::new();
        let mut i: usize = 0;
        assert(run_view(cells@) =~= sent_run(flattened(rows.take(0)), compact));
        while i < snapshot.rows.len()
            invariant
                i <= snapshot.rows@.len(),
                rows == rows_view(snapshot.rows@),
                run_view(cells@) == sent_run(flattened(rows.take(i as int)), compact),
            decreases snapshot.rows@.len() - i,
        {
            append_row(&mut cells, &snapshot.rows[i], compact);
            i = i + 1;
            let ghost so_far = rows.take(i as int);
            assert(so_far.drop_last() =~= rows.take(i - 1));
            assert(sent_run(flattened(so_far), compact) =~= sent_run(
                flattened(so_far.drop_last()),
                compact,
            ) + sent_run(so_far.last(), compact));
        }
        assert(rows.take(i as int) =~= rows);
        SnapshotWire {
            terminal_id: snapshot.terminal_id,
            size: snapshot.size,
            process_name: snapshot.process_name.clone(),
            cwd: snapshot.cwd.clone(),
            display_offset: snapshot.display_offset,
            viewport_position: snapshot.viewport_position,
            cursor: snapshot.cursor,
            modes: snapshot.modes,
            process: snapshot.process,
            revision: snapshot.revision,
            cells,
            rows_before: send_rows(&snapshot.rows_before, compact),
            rows_after: send_rows(&snapshot.rows_after, compact),
        }
    }

    /// The screen that was written. The history does not travel, so the
    /// screen has none.
    pub fn into_snapshot(self) -> (snapshot: TerminalSnapshot)
        requires
            self.size.columns * self.size.lines <= usize::MAX,
        ensures
            snapshot@ == self@.received(),
    {
        let cells: Vec<TerminalCell> = receive_run(&self.cells);
        let ghost flat = row_view(cells@);
        let ghost received = cells@;
        let rows: Vec<TerminalRowSnapshot> = rows_from_flat_cells(cells, self.size);
        proof {
            let size = self.size;
            assert forall|row: int, column: int|
                0 <= row < size.lines && 0 <= column < size.columns implies flat_cell(
                received,
                row * size.columns + column,
            ) == laid_out(flat, size)[row][column] by {
                assert(0 <= row * size.columns) by (nonlinear_arith)
                    requires
                        0 <= row,
                ;
            }
            assert(rows_view(rows@) =~~= laid_out(flat, size));
        }
        TerminalSnapshot {
            terminal_id: self.terminal_id,
            size: self.size,
            process_name: self.process_name,
            cwd: self.cwd,
            display_offset: self.display_offset,
            viewport_position: self.viewport_position,
            cursor: self.cursor,
            modes: self.modes,
            process: self.process,
            revision: self.revision,
            history_len: 0,
            history_bottom: 0,
            rows,
            rows_before: receive_rows(&self.rows_before),
            rows_after: receive_rows(&self.rows_after),
        }
    }
}

proof fn lemma_flattened(rows: Seq<Seq<CellView>>, columns: int)
    requires
        0 <= columns,
        forall|row: int| 0 <= row < rows.len() ==> (#[trigger] rows[row]).len() == columns,
    ensures
        flattened(rows).len() == rows.len() * columns,
        forall|row: int, column: int|
            0 <= row < rows.len() && 0 <= column < columns ==> flattened(rows)[row * columns
                + column] == #[trigger] rows[row][column],
    decreases rows.len(),
{
    if rows.len() > 0 {
        let before = rows.drop_last();
        assert forall|row: int| 0 <= row < before.len() implies (#[trigger] before[row]).len()
            == columns by {
            assert(before[row] == rows[row]);
        }
        lemma_flattened(before, columns);
        let count = before.len() as int;
        assert(rows.len() * columns == count * columns + columns) by (nonlinear_arith)
            requires
                rows.len() == count + 1,
        ;
        assert forall|row: int, column: int|
            0 <= row < rows.len() && 0 <= column < columns implies flattened(rows)[row * columns
            + column] == #[trigger] rows[row][column] by {
            if row < count {
                assert(before[row] == rows[row]);
                assert(before[row][column] == rows[row][column]);
                assert(0 <= row * columns && row * columns + columns <= count * columns)
                    by (nonlinear_arith)
                    requires
                        0 <= row < count,
                        0 <= columns,
                ;
            } else {
                assert(row == count);
            }
        }
    }
}

/// A screen whose rows fill its geometry comes off the wire as it went on, in
/// either shape, but for the extent of its history.
pub proof fn a_screen_survives_the_wire(snapshot: SnapshotView, compact: bool)
    requires
        snapshot.rows.len() == snapshot.size.lines,
        forall|row: int|
            0 <= row < snapshot.rows.len() ==> (#[trigger] snapshot.rows[row]).len()
                == snapshot.size.columns,
    ensures
        sent_snapshot(snapshot, compact).received() == (SnapshotView {
            history_len: 0,
            history_bottom: 0,
            ..snapshot
        }),
{
    let columns = snapshot.size.columns as int;
    let flat = flattened(snapshot.rows);
    let received = sent_snapshot(snapshot, compact).received();
    lemma_flattened(snapshot.rows, columns);
    lemma_run_survives(flat, compact);
    assert forall|row: int| 0 <= row < snapshot.rows.len() implies #[trigger] received.rows[row]
        == snapshot.rows[row] by {
        assert forall|column: int| 0 <= column < columns implies #[trigger] received.rows[row][column]
            == snapshot.rows[row][column] by {
            assert(row * columns + column < snapshot.rows.len() * columns) by (nonlinear_arith)
                requires
                    0 <= row < snapshot.rows.len(),
                    0 <= column < columns,
            ;
        }
        assert(received.rows[row] =~= snapshot.rows[row]);
    }
    assert(received.rows =~= snapshot.rows);
    lemma_rows_survive(snapshot.rows_before, compact);
    lemma_rows_survive(snapshot.rows_after, compact);
}

proof fn lemma_run_survives(cells: Seq<CellView>, compact: bool)
    ensures
        received_run(sent_run(cells, compact)) == cells,
{
    assert forall|at: int| 0 <= at < cells.len() implies #[trigger] received_run(
        sent_run(cells, compact),
    )[at] == cells[at] by {
        a_cell_survives_the_wire(cells[at], compact);
    }
    assert(received_run(sent_run(cells, compact)) =~= cells);
}

proof fn lemma_rows_survive(rows: Seq<Seq<CellView>>, compact: bool)
    ensures
        received_rows(sent_rows(rows, compact)) == rows,
{
    assert forall|at: int| 0 <= at < rows.len() implies #[trigger] received_rows(
        sent_rows(rows, compact),
    )[at] == rows[at] by {
        lemma_run_survives(rows[at], compact);
    }
    assert(received_rows(sent_rows(rows, compact)) =~= rows);
}

} // verus!

//! Where the images of a terminal stand in its viewport.
use std::sync::Arc;

use vstd::prelude::*;

use super::image::ImagePlacement;
use super::store::{ImageRecord, ImageStore, StoreView, StoredImage};
use crate::num::{clamped, max_of, min_of, saturating_add_i32};
use crate::shared::share;
use crate::terminal::snapshot::{
    CellView, SnapshotView, TerminalColor, TerminalSize, TerminalSnapshot,
};

verus! {

/// How far outside the viewport an image is still handed to the renderer.
pub const IMAGE_OVERSCAN_ROWS: i32 = 64;

/// Kitty's Unicode placeholder code point. The actual image ID is carried by
/// the cell foreground color; the combining marks are only needed by a full
/// terminal implementation to preserve placeholder coordinates through host
/// applications such as tmux.
pub const TERMINAL_IMAGE_PLACEHOLDER: char = '\u{10EEEE}';

/// A decoded terminal image positioned in terminal-cell coordinates.
#[derive(Debug, Clone, PartialEq, Eq)]
pub struct TerminalImage {
    /// A GUI-local identity used by the render cache.
    pub id: u64,
    /// The row in the current terminal viewport coordinate system.
    pub row: i32,
    pub column: usize,
    pub width: usize,
    pub height: usize,
    pub pixel_width: u32,
    pub pixel_height: u32,
    /// Decoded RGBA pixels. This is shared between immutable snapshots.
    pub rgba: Arc<[u8]>,
}

/// A positioned image by its values.
#[verifier::ext_equal]
pub struct PlacedImage {
    pub id: u64,
    pub row: i32,
    pub column: usize,
    pub width: usize,
    pub height: usize,
    pub pixel_width: u32,
    pub pixel_height: u32,
    pub rgba: Seq<u8>,
}

impl View for TerminalImage {
    type V = PlacedImage;

    open spec fn view(&self) -> PlacedImage {
        PlacedImage {
            id: self.id,
            row: self.row,
            column: self.column,
            width: self.width,
            height: self.height,
            pixel_width: self.pixel_width,
            pixel_height: self.pixel_height,
            rgba: self.rgba@,
        }
    }
}

pub open spec fn placed_images(images: Seq<TerminalImage>) -> Seq<PlacedImage> {
    images.map_values(|image: TerminalImage| image@)
}

/// The image id that a placeholder cell's colour carries.
pub open spec fn color_id(color: TerminalColor) -> Option<u32> {
    let id = match color {
        TerminalColor::Named { value } => value as int,
        TerminalColor::Indexed { value } => value as int,
        TerminalColor::Rgb { red, green, blue } => 0x1_0000 * red + 0x100 * green + blue,
    };
    if id > 0 {
        Some(id as u32)
    } else {
        None
    }
}

pub fn placeholder_image_id(color: &TerminalColor) -> (id: Option<u32>)
    ensures
        id == color_id(*color),
{
    let id: u32 = match color {
        TerminalColor::Named { value } => *value as u32,
        TerminalColor::Indexed { value } => *value as u32,
        TerminalColor::Rgb { red, green, blue } => 0x1_0000 * (*red as u32) + 0x100 * (
        *green as u32) + *blue as u32,
    };
    if id > 0 {
        Some(id)
    } else {
        None
    }
}

/// The cells from a corner to the opposite one.
#[derive(Debug, Clone, Copy, PartialEq, Eq)]
pub struct CellBox {
    pub top: usize,
    pub left: usize,
    pub bottom: usize,
    pub right: usize,
}

/// A cell holds the place of the image with an id.
pub open spec fn marks(rows: Seq<Seq<CellView>>, id: u32, row: int, column: int) -> bool {
    &&& 0 <= row < rows.len()
    &&& 0 <= column < rows[row].len()
    &&& rows[row][column].character == TERMINAL_IMAGE_PLACEHOLDER
    &&& color_id(rows[row][column].fg) == Some(id)
}

/// A cell stands before another in reading order.
pub open spec fn before(row: int, column: int, end_row: int, end_column: int) -> bool {
    row < end_row || (row == end_row && column < end_column)
}

/// Of the cells before a place, the ones that hold the place of the image
/// stand in the box, and each of its sides touches one.
pub open spec fn frames_before(
    rows: Seq<Seq<CellView>>,
    id: u32,
    frame: CellBox,
    end_row: int,
    end_column: int,
) -> bool {
    &&& forall|row: int, column: int| #[trigger]
        marks(rows, id, row, column) && before(row, column, end_row, end_column) ==> frame.top
            <= row <= frame.bottom && frame.left <= column <= frame.right
    &&& exists|column: int| #[trigger]
        marks(rows, id, frame.top as int, column) && before(
            frame.top as int,
            column,
            end_row,
            end_column,
        )
    &&& exists|column: int| #[trigger]
        marks(rows, id, frame.bottom as int, column) && before(
            frame.bottom as int,
            column,
            end_row,
            end_column,
        )
    &&& exists|row: int| #[trigger]
        marks(rows, id, row, frame.left as int) && before(
            row,
            frame.left as int,
            end_row,
            end_column,
        )
    &&& exists|row: int| #[trigger]
        marks(rows, id, row, frame.right as int) && before(
            row,
            frame.right as int,
            end_row,
            end_column,
        )
}

/// The box is the smallest around the cells that hold the place of the image.
pub open spec fn frames(rows: Seq<Seq<CellView>>, id: u32, frame: CellBox) -> bool {
    frames_before(rows, id, frame, rows.len() as int, 0)
}

/// The smallest box around the cells that hold the place of the image.
pub open spec fn placeholder_box(rows: Seq<Seq<CellView>>, id: u32) -> Option<CellBox> {
    if exists|row: int, column: int| marks(rows, id, row, column) {
        Some(choose|frame: CellBox| frames(rows, id, frame))
    } else {
        None
    }
}

/// What is known of an image's placeholder cells after those before a place
/// were read.
spec fn found_before(
    rows: Seq<Seq<CellView>>,
    id: u32,
    found: Option<CellBox>,
    end_row: int,
    end_column: int,
) -> bool {
    match found {
        Some(frame) => frames_before(rows, id, frame, end_row, end_column),
        None => forall|row: int, column: int|
            !(#[trigger] marks(rows, id, row, column) && before(row, column, end_row, end_column)),
    }
}

proof fn lemma_found_is_the_box(rows: Seq<Seq<CellView>>, id: u32, found: Option<CellBox>)
    requires
        found_before(rows, id, found, rows.len() as int, 0),
    ensures
        found == placeholder_box(rows, id),
{
    match found {
        Some(frame) => {
            let column = choose|column: int| #[trigger] marks(rows, id, frame.top as int, column);
            assert(marks(rows, id, frame.top as int, column));
            assert(frames(rows, id, frame));
            let chosen = choose|frame: CellBox| frames(rows, id, frame);
            assert(frames(rows, id, chosen));
            lemma_one_box(rows, id, frame, chosen);
        },
        None => {
            assert forall|row: int, column: int| !marks(rows, id, row, column) by {
                if marks(rows, id, row, column) {
                    assert(before(row, column, rows.len() as int, 0));
                }
            }
        },
    }
}

/// Two boxes that both frame the same cells are the same.
proof fn lemma_one_box(rows: Seq<Seq<CellView>>, id: u32, one: CellBox, other: CellBox)
    requires
        frames(rows, id, one),
        frames(rows, id, other),
    ensures
        one == other,
{
    let end = rows.len() as int;
    assert forall|a: CellBox, b: CellBox| frames(rows, id, a) && frames(rows, id, b) implies b.top
        <= a.top && b.left <= a.left && b.bottom >= a.bottom && b.right >= a.right by {
        let top = choose|column: int| #[trigger]
            marks(rows, id, a.top as int, column) && before(a.top as int, column, end, 0);
        assert(marks(rows, id, a.top as int, top));
        let bottom = choose|column: int| #[trigger]
            marks(rows, id, a.bottom as int, column) && before(a.bottom as int, column, end, 0);
        assert(marks(rows, id, a.bottom as int, bottom));
        let left = choose|row: int| #[trigger]
            marks(rows, id, row, a.left as int) && before(row, a.left as int, end, 0);
        assert(marks(rows, id, left, a.left as int));
        let right = choose|row: int| #[trigger]
            marks(rows, id, row, a.right as int) && before(row, a.right as int, end, 0);
        assert(marks(rows, id, right, a.right as int));
    }
    assert(frames(rows, id, one) && frames(rows, id, other));
}

/// The box with one more cell.
fn grown(found: Option<CellBox>, row: usize, column: usize) -> (frame: CellBox)
    ensures
        match found {
            Some(found) => {
                &&& frame.top == if row < found.top { row } else { found.top }
                &&& frame.bottom == if row > found.bottom { row } else { found.bottom }
                &&& frame.left == if column < found.left { column } else { found.left }
                &&& frame.right == if column > found.right { column } else { found.right }
            },
            None => frame == (CellBox { top: row, left: column, bottom: row, right: column }),
        },
{
    match found {
        Some(found) => CellBox {
            top: if row < found.top {
                row
            } else {
                found.top
            },
            left: if column < found.left {
                column
            } else {
                found.left
            },
            bottom: if row > found.bottom {
                row
            } else {
                found.bottom
            },
            right: if column > found.right {
                column
            } else {
                found.right
            },
        },
        None => CellBox { top: row, left: column, bottom: row, right: column },
    }
}

/// Reading one more cell that holds the place of the image.
proof fn lemma_cell_marks(
    rows: Seq<Seq<CellView>>,
    id: u32,
    found: Option<CellBox>,
    frame: CellBox,
    row: int,
    column: int,
)
    requires
        found_before(rows, id, found, row, column),
        marks(rows, id, row, column),
        match found {
            Some(found) => {
                &&& frame.top == if row < found.top { row } else { found.top as int }
                &&& frame.bottom == if row > found.bottom { row } else { found.bottom as int }
                &&& frame.left == if column < found.left { column } else { found.left as int }
                &&& frame.right == if column > found.right { column } else { found.right as int }
            },
            None => frame.top == row && frame.bottom == row && frame.left == column && frame.right
                == column,
        },
    ensures
        found_before(rows, id, Some(frame), row, column + 1),
{
    assert(before(row, column, row, column + 1));
    match found {
        Some(found) => {
            let top = choose|at: int| #[trigger]
                marks(rows, id, found.top as int, at) && before(found.top as int, at, row, column);
            assert(marks(rows, id, found.top as int, top) && before(
                found.top as int,
                top,
                row,
                column + 1,
            ));
            let bottom = choose|at: int| #[trigger]
                marks(rows, id, found.bottom as int, at) && before(
                    found.bottom as int,
                    at,
                    row,
                    column,
                );
            assert(marks(rows, id, found.bottom as int, bottom) && before(
                found.bottom as int,
                bottom,
                row,
                column + 1,
            ));
            let left = choose|at: int| #[trigger]
                marks(rows, id, at, found.left as int) && before(
                    at,
                    found.left as int,
                    row,
                    column,
                );
            assert(marks(rows, id, left, found.left as int) && before(
                left,
                found.left as int,
                row,
                column + 1,
            ));
            let right = choose|at: int| #[trigger]
                marks(rows, id, at, found.right as int) && before(
                    at,
                    found.right as int,
                    row,
                    column,
                );
            assert(marks(rows, id, right, found.right as int) && before(
                right,
                found.right as int,
                row,
                column + 1,
            ));
        },
        None => {},
    }
}

/// Reading on where no cell holds the place of the image.
proof fn lemma_reading_on(
    rows: Seq<Seq<CellView>>,
    id: u32,
    found: Option<CellBox>,
    row: int,
    column: int,
    next_row: int,
    next_column: int,
)
    requires
        found_before(rows, id, found, row, column),
        forall|r: int, c: int| before(r, c, row, column) ==> before(r, c, next_row, next_column),
        forall|r: int, c: int| #[trigger]
            marks(rows, id, r, c) && before(r, c, next_row, next_column) ==> before(
                r,
                c,
                row,
                column,
            ),
    ensures
        found_before(rows, id, found, next_row, next_column),
{
    match found {
        Some(found) => {
            let top = choose|at: int| #[trigger]
                marks(rows, id, found.top as int, at) && before(found.top as int, at, row, column);
            assert(marks(rows, id, found.top as int, top));
            let bottom = choose|at: int| #[trigger]
                marks(rows, id, found.bottom as int, at) && before(
                    found.bottom as int,
                    at,
                    row,
                    column,
                );
            assert(marks(rows, id, found.bottom as int, bottom));
            let left = choose|at: int| #[trigger]
                marks(rows, id, at, found.left as int) && before(
                    at,
                    found.left as int,
                    row,
                    column,
                );
            assert(marks(rows, id, left, found.left as int));
            let right = choose|at: int| #[trigger]
                marks(rows, id, at, found.right as int) && before(
                    at,
                    found.right as int,
                    row,
                    column,
                );
            assert(marks(rows, id, right, found.right as int));
        },
        None => {},
    }
}

/// The box of an image that is anchored by placeholder cells.
pub open spec fn anchor_box(rows: Seq<Seq<CellView>>, image: StoredImage) -> Option<CellBox> {
    if image.placeholder_size is Some {
        placeholder_box(rows, image.id)
    } else {
        None
    }
}

/// What is known of the boxes of all images after the cells before a place
/// were read.
spec fn boxes_before(
    rows: Seq<Seq<CellView>>,
    images: Seq<StoredImage>,
    boxes: Seq<Option<CellBox>>,
    row: int,
    column: int,
) -> bool {
    &&& boxes.len() == images.len()
    &&& forall|k: int|
        0 <= k < images.len() ==> if (#[trigger] images[k]).placeholder_size is Some {
            found_before(rows, images[k].id, boxes[k], row, column)
        } else {
            boxes[k] is None
        }
}

proof fn lemma_next_row(
    rows: Seq<Seq<CellView>>,
    images: Seq<StoredImage>,
    boxes: Seq<Option<CellBox>>,
    row: int,
)
    requires
        0 <= row < rows.len(),
        boxes_before(rows, images, boxes, row, rows[row].len() as int),
    ensures
        boxes_before(rows, images, boxes, row + 1, 0),
{
    assert forall|k: int|
        0 <= k < images.len() implies if (#[trigger] images[k]).placeholder_size is Some {
        found_before(rows, images[k].id, boxes[k], row + 1, 0)
    } else {
        boxes[k] is None
    } by {
        if images[k].placeholder_size is Some {
            lemma_reading_on(
                rows,
                images[k].id,
                boxes[k],
                row,
                rows[row].len() as int,
                row + 1,
                0,
            );
        }
    }
}

/// Reading a cell that holds the place of the image at `at`, or of none.
proof fn lemma_next_cell(
    rows: Seq<Seq<CellView>>,
    images: Seq<StoredImage>,
    boxes: Seq<Option<CellBox>>,
    row: int,
    column: int,
    at: int,
)
    requires
        0 <= row < rows.len(),
        0 <= column < rows[row].len(),
        boxes_before(rows, images, boxes, row, column),
        forall|k: int|
            0 <= k < images.len() && k != at && (#[trigger] images[k]).placeholder_size is Some
                ==> !marks(rows, images[k].id, row, column),
    ensures
        forall|k: int|
            0 <= k < images.len() && k != at ==> if (
            #[trigger] images[k]).placeholder_size is Some {
                found_before(rows, images[k].id, boxes[k], row, column + 1)
            } else {
                boxes[k] is None
            },
{
    assert forall|k: int| 0 <= k < images.len() && k != at implies if (
    #[trigger] images[k]).placeholder_size is Some {
        found_before(rows, images[k].id, boxes[k], row, column + 1)
    } else {
        boxes[k] is None
    } by {
        if images[k].placeholder_size is Some {
            lemma_reading_on(rows, images[k].id, boxes[k], row, column, row, column + 1);
        }
    }
}

/// Resolves Kitty Unicode placeholder cells from the local terminal
/// snapshot. This is intentionally done after the terminal has consumed the
/// ordered stream, so cursor motion and SGR colors are already reflected
/// in the cells. The resulting placement remains GUI-local.
pub fn placeholder_bounds(store: &ImageStore, snapshot: &TerminalSnapshot) -> (boxes: Vec<
    Option<CellBox>,
>)
    requires
        store@.valid(),
    ensures
        boxes@ == store@.images.map_values(|image: StoredImage| anchor_box(snapshot@.rows, image)),
        forall|k: int|
            0 <= k < boxes@.len() ==> (#[trigger] boxes@[k] is Some ==> frames(
                snapshot@.rows,
                store@.images[k].id,
                boxes@[k]->0,
            )),
{
    let ghost rows = snapshot@.rows;
    let ghost images = store@.images;
    let mut boxes: Vec<Option<CellBox>> = Vec::new();
    while boxes.len() < store.len()
        invariant
            images == store@.images,
            boxes@.len() <= images.len(),
            forall|k: int| 0 <= k < boxes@.len() ==> (#[trigger] boxes@[k]) is None,
        decreases images.len() - boxes@.len(),
    {
        boxes.push(None);
    }
    let mut row: usize = 0;
    assert(boxes_before(rows, images, boxes@, 0, 0)) by {
        assert forall|k: int|
            0 <= k < images.len() implies if (#[trigger] images[k]).placeholder_size is Some {
            found_before(rows, images[k].id, boxes@[k], 0, 0)
        } else {
            boxes@[k] is None
        } by {
            assert(boxes@[k] is None);
        }
    }
    while row < snapshot.rows.len()
        invariant
            store@.valid(),
            rows == snapshot@.rows,
            images == store@.images,
            row <= rows.len(),
            boxes_before(rows, images, boxes@, row as int, 0),
        decreases rows.len() - row,
    {
        let cells = &snapshot.rows[row];
        let mut column: usize = 0;
        while column < cells.len()
            invariant
                store@.valid(),
                rows == snapshot@.rows,
                images == store@.images,
                row < rows.len(),
                cells@ == snapshot.rows@[row as int]@,
                column <= rows[row as int].len(),
                boxes_before(rows, images, boxes@, row as int, column as int),
            decreases rows[row as int].len() - column,
        {
            let cell = &cells[column];
            assert(rows[row as int][column as int] == cell@);
            let ghost earlier = boxes@;
            let id: Option<u32> = if cell.character == TERMINAL_IMAGE_PLACEHOLDER {
                placeholder_image_id(&cell.fg)
            } else {
                None
            };
            let ghost mut at: int = -1;
            if let Some(id) = id {
                let index: usize = store.position(id);
                if index < store.len() {
                    let image = store.get(index);
                    if image.id == id && image.placeholder_size.is_some() {
                        proof {
                            at = index as int;
                        }
                        let frame: CellBox = grown(boxes[index], row, column);
                        proof {
                            lemma_cell_marks(
                                rows,
                                id,
                                boxes@[at],
                                frame,
                                row as int,
                                column as int,
                            );
                        }
                        boxes.set(index, Some(frame));
                    }
                }
            }
            assert forall|k: int|
                0 <= k < images.len() && k != at && (#[trigger] images[k]).placeholder_size is Some
                implies !marks(rows, images[k].id, row as int, column as int) by {
            }
            proof {
                lemma_next_cell(rows, images, earlier, row as int, column as int, at);
            }
            column = column + 1;
        }
        proof {
            lemma_next_row(rows, images, boxes@, row as int);
        }
        row = row + 1;
    }
    assert forall|k: int| 0 <= k < images.len() implies boxes@[k] == anchor_box(
        rows,
        #[trigger] images[k],
    ) by {
        if images[k].placeholder_size is Some {
            lemma_found_is_the_box(rows, images[k].id, boxes@[k]);
        }
    }
    assert(boxes@ =~= images.map_values(|image: StoredImage| anchor_box(rows, image)));
    assert forall|k: int| 0 <= k < boxes@.len() implies (#[trigger] boxes@[k] is Some ==> frames(
        rows,
        images[k].id,
        boxes@[k]->0,
    )) by {
        assert(images[k].placeholder_size is Some || boxes@[k] is None);
    }
    boxes
}

/// Where an image stands: the line, the column, and how many columns and
/// lines it takes.
pub struct Spot {
    pub line: i32,
    pub column: usize,
    pub width: usize,
    pub height: usize,
}

/// Where an image stands, given the box of its placeholder cells.
pub open spec fn spot_of(
    image: StoredImage,
    frame: Option<CellBox>,
    display_offset: usize,
) -> Option<Spot> {
    match frame {
        Some(frame) => Some(
            Spot {
                line: (frame.top as i32 - display_offset as i32) as i32,
                column: frame.left,
                width: min_of(frame.right - frame.left + 1, usize::MAX as int) as usize,
                height: (frame.bottom - frame.top + 1) as usize,
            },
        ),
        None => if image.placeholder_size is Some {
            None
        } else {
            match image.placement {
                Some(placement) => Some(
                    Spot {
                        line: placement.line,
                        column: placement.column,
                        width: placement.width,
                        height: placement.height,
                    },
                ),
                None => None,
            }
        },
    }
}

/// The image at its spot, where that is in or near a viewport that is moved
/// up by some lines.
pub open spec fn image_at(
    image: StoredImage,
    spot: Option<Spot>,
    display_offset: usize,
    lines: usize,
) -> Option<PlacedImage> {
    match spot {
        Some(spot) => {
            let row = clamped(
                spot.line + display_offset as i32,
                i32::MIN as int,
                i32::MAX as int,
            );
            let height = max_of(spot.height as int, 1) as usize;
            let end = clamped(row + height as i32, i32::MIN as int, i32::MAX as int);
            if end < -IMAGE_OVERSCAN_ROWS || row > lines as i32 + IMAGE_OVERSCAN_ROWS {
                None
            } else {
                Some(
                    PlacedImage {
                        id: image.render_id,
                        row: row as i32,
                        column: spot.column,
                        width: max_of(spot.width as int, 1) as usize,
                        height,
                        pixel_width: image.width,
                        pixel_height: image.height,
                        rgba: image.rgba,
                    },
                )
            }
        },
        None => None,
    }
}

/// The image as a viewport shows it.
pub open spec fn image_shown(
    image: StoredImage,
    display_offset: usize,
    lines: usize,
    snapshot: SnapshotView,
) -> Option<PlacedImage> {
    image_at(
        image,
        spot_of(image, anchor_box(snapshot.rows, image), snapshot.display_offset),
        display_offset,
        lines,
    )
}

/// The images that a viewport shows, in the order of their ids.
pub open spec fn images_shown(
    images: Seq<StoredImage>,
    display_offset: usize,
    lines: usize,
    snapshot: SnapshotView,
) -> Seq<PlacedImage>
    decreases images.len(),
{
    if images.len() == 0 {
        Seq::empty()
    } else {
        let shown = images_shown(images.drop_last(), display_offset, lines, snapshot);
        match image_shown(images.last(), display_offset, lines, snapshot) {
            Some(image) => shown.push(image),
            None => shown,
        }
    }
}

fn spot_in(image: &ImageRecord, frame: Option<CellBox>, display_offset: usize, Ghost(rows): Ghost<
    Seq<Seq<CellView>>,
>) -> (spot: Option<Spot>)
    requires
        rows.len() <= i32::MAX,
        0 <= display_offset as i32,
        frame is Some ==> frames(rows, image.id, frame->0),
    ensures
        spot == spot_of(image@, frame, display_offset),
{
    match frame {
        Some(frame) => {
            proof {
                let top = choose|column: int| #[trigger]
                    marks(rows, image.id, frame.top as int, column);
                assert(marks(rows, image.id, frame.top as int, top));
                let bottom = choose|column: int| #[trigger]
                    marks(rows, image.id, frame.bottom as int, column);
                assert(marks(rows, image.id, frame.bottom as int, bottom));
                let right = choose|row: int| #[trigger]
                    marks(rows, image.id, row, frame.right as int);
                assert(marks(rows, image.id, right, frame.right as int));
                assert(frame.right < rows[right].len());
            }
            Some(
                Spot {
                    line: frame.top as i32 - display_offset as i32,
                    column: frame.left,
                    width: (frame.right - frame.left).saturating_add(1),
                    height: (frame.bottom - frame.top).saturating_add(1),
                },
            )
        },
        None => if image.placeholder_size.is_some() {
            None
        } else {
            match &image.placement {
                Some(placement) => Some(
                    Spot {
                        line: placement.line,
                        column: placement.column,
                        width: placement.width,
                        height: placement.height,
                    },
                ),
                None => None,
            }
        },
    }
}

/// The image at its spot, where that is in or near the viewport.
fn place_image(image: &ImageRecord, spot: Option<Spot>, display_offset: usize, lines: usize) -> (
    shown: Option<TerminalImage>)
    requires
        lines as i32 + IMAGE_OVERSCAN_ROWS <= i32::MAX,
    ensures
        (match shown {
            Some(shown) => Some(shown@),
            None => None,
        }) == image_at(image@, spot, display_offset, lines),
{
    let spot: Spot = match spot {
        Some(spot) => spot,
        None => {
            return None;
        },
    };
    let row: i32 = saturating_add_i32(spot.line, display_offset as i32);
    let height: usize = spot.height.max(1);
    let end: i32 = saturating_add_i32(row, height as i32);
    if end < -IMAGE_OVERSCAN_ROWS || row > lines as i32 + IMAGE_OVERSCAN_ROWS {
        return None;
    }
    Some(
        TerminalImage {
            id: image.render_id,
            row,
            column: spot.column,
            width: spot.width.max(1),
            height,
            pixel_width: image.width,
            pixel_height: image.height,
            rgba: image.rgba.clone(),
        },
    )
}

/// The images that a viewport shows, in the order of their ids.
pub fn show_images(
    store: &ImageStore,
    display_offset: usize,
    size: TerminalSize,
    snapshot: &TerminalSnapshot,
) -> (shown: Arc<[TerminalImage]>)
    requires
        store@.valid(),
        snapshot@.rows.len() <= i32::MAX,
        0 <= snapshot.display_offset as i32,
        size.lines as i32 + IMAGE_OVERSCAN_ROWS <= i32::MAX,
    ensures
        placed_images(shown@) == images_shown(
            store@.images,
            display_offset,
            size.lines,
            snapshot@,
        ),
{
    let boxes: Vec<Option<CellBox>> = placeholder_bounds(store, snapshot);
    let ghost images = store@.images;
    let mut shown: Vec<TerminalImage> = Vec::new();
    let mut index: usize = 0;
    assert(placed_images(shown@) =~= images_shown(
        images.take(0),
        display_offset,
        size.lines,
        snapshot@,
    ));
    while index < store.len()
        invariant
            images == store@.images,
            index <= images.len(),
            boxes@ == images.map_values(|image: StoredImage| anchor_box(snapshot@.rows, image)),
            forall|k: int|
                0 <= k < boxes@.len() ==> (#[trigger] boxes@[k] is Some ==> frames(
                    snapshot@.rows,
                    images[k].id,
                    boxes@[k]->0,
                )),
            snapshot@.rows.len() <= i32::MAX,
            0 <= snapshot.display_offset as i32,
            size.lines as i32 + IMAGE_OVERSCAN_ROWS <= i32::MAX,
            placed_images(shown@) == images_shown(
                images.take(index as int),
                display_offset,
                size.lines,
                snapshot@,
            ),
        decreases images.len() - index,
    {
        let image = store.get(index);
        assert(images.take(index + 1).drop_last() =~= images.take(index as int));
        let spot: Option<Spot> = spot_in(
            image,
            boxes[index],
            snapshot.display_offset,
            Ghost(snapshot@.rows),
        );
        let ghost earlier = shown@;
        if let Some(placed) = place_image(image, spot, display_offset, size.lines) {
            shown.push(placed);
            assert(placed_images(shown@) =~= placed_images(earlier).push(placed@));
        }
        index = index + 1;
    }
    assert(images.take(index as int) =~= images);
    share(shown)
}

/// The id that a placeholder's colour carries: the number of a colour of the
/// palette, or the red, the green and the blue as the digits of a number to the
/// base 256.
pub proof fn a_color_carries_an_id(red: u8, green: u8, blue: u8, value: u8)
    ensures
        ({
            let color = color_id(TerminalColor::Rgb { red, green, blue });
            &&& red > 0 || green > 0 || blue > 0 ==> color is Some && color->0 / 0x10000 == red
                && color->0 / 0x100 % 0x100 == green && color->0 % 0x100 == blue
            &&& red == 0 && green == 0 && blue == 0 ==> color is None
            &&& value > 0 ==> color_id(TerminalColor::Indexed { value }) == Some(value as u32)
        }),
{
}

/// An image that stands at a line of the screen is shown as many rows further
/// down as the display is up, at its column, in its cells and with all of its
/// pixels, where any of it is in the viewport.
pub proof fn an_image_moves_with_the_display(
    image: StoredImage,
    placement: ImagePlacement,
    display_offset: usize,
    lines: usize,
    snapshot: SnapshotView,
)
    requires
        image.placement == Some(placement),
        image.placeholder_size is None,
        -0x1000_0000 <= placement.line <= 0x1000_0000,
        1 <= placement.width <= 0x1000_0000,
        1 <= placement.height <= 0x1000_0000,
        display_offset <= 0x1000_0000,
        lines <= 0x1000_0000,
    ensures
        ({
            let row = placement.line + display_offset;
            let shown = image_shown(image, display_offset, lines, snapshot);
            &&& 0 <= row + placement.height && row <= lines ==> shown is Some
            &&& row + placement.height < -64 || row > lines + 64 ==> shown is None
            &&& shown matches Some(shown) ==> shown.row == row && shown.column == placement.column
                && shown.width == placement.width && shown.height == placement.height
                && shown.pixel_width == image.width && shown.pixel_height == image.height
                && shown.rgba == image.rgba && shown.id == image.render_id
        }),
{
}

/// An image that is anchored by placeholder cells stands where they do: over
/// the smallest box around them, and nowhere where there are none.
pub proof fn an_anchored_image_covers_its_placeholders(
    image: StoredImage,
    display_offset: usize,
    lines: usize,
    snapshot: SnapshotView,
    frame: CellBox,
)
    requires
        image.placeholder_size is Some,
        placeholder_box(snapshot.rows, image.id) == Some(frame),
        snapshot.display_offset == display_offset,
        display_offset <= 0x1000_0000,
        lines <= 0x1000_0000,
        frame.top <= frame.bottom < lines,
        frame.left <= frame.right < 0x1000_0000,
    ensures
        ({
            let shown = image_shown(image, display_offset, lines, snapshot);
            &&& shown is Some
            &&& shown->0.row == frame.top
            &&& shown->0.column == frame.left
            &&& shown->0.width == frame.right - frame.left + 1
            &&& shown->0.height == frame.bottom - frame.top + 1
            &&& shown->0.rgba == image.rgba
        }),
{
}

/// The images of a viewport are those of the store that it shows, in their
/// order, and no others.
pub proof fn images_are_shown_one_by_one(
    front: Seq<StoredImage>,
    image: StoredImage,
    display_offset: usize,
    lines: usize,
    snapshot: SnapshotView,
)
    ensures
        images_shown(Seq::empty(), display_offset, lines, snapshot).len() == 0,
        images_shown(front.push(image), display_offset, lines, snapshot) == (match image_shown(
            image,
            display_offset,
            lines,
            snapshot,
        ) {
            Some(shown) => images_shown(front, display_offset, lines, snapshot).push(shown),
            None => images_shown(front, display_offset, lines, snapshot),
        }),
        image.placement is None && image.placeholder_size is None ==> image_shown(
            image,
            display_offset,
            lines,
            snapshot,
        ) is None,
{
    assert(front.push(image).drop_last() =~= front);
}

} // verus!

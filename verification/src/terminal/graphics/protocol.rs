//! The Kitty, iTerm2 and Sixel graphics protocols.
//!
//! The PTY worker deliberately forwards graphics escapes as part of the raw
//! ordered stream. This module is used only by the GUI-side emulator, where
//! it turns the Kitty, iTerm2 inline-image, and Sixel protocols into bounded
//! RGBA image placements. The decoded data never crosses the control-plane
//! snapshot wire.
use std::collections::VecDeque;
use std::sync::Arc;

use vstd::prelude::*;
use vstd::slice::*;
use vstd::string::*;

use super::image::{
    decode_encoded_image, decode_raw_image, encoded_picture, extent, parameter_cells, picture_of,
    placed_at, placement_asked, placement_from_dimensions, placement_from_parameters, raw_picture,
    DecodedImage, ImagePlacement, Picture,
};
use super::parameters::{
    dimension_number, index_of, index_of_is_the_first, option_value, parameter, parameter_number, parameter_u32, parameter_value,
    parse_dimension, semicolon_option, split_at_first, split_once_byte,
};
use super::parser::{
    scanned, sequences_of, GraphicsEvent, GraphicsKind, GraphicsParser, GraphicsSequence,
    MAX_GRAPHICS_BUFFER_BYTES,
};
use super::placeholder::{
    images_shown, placed_images, show_images, TerminalImage, IMAGE_OVERSCAN_ROWS,
};
use super::sixel::{decode_sixel, sixel_picture};
use super::store::{
    a_picture_is_stored_under_its_id, an_image_is_replaced_in_its_place, image_bytes, next_id,
    one_image_is_taken_out, removing_keeps_the_store_valid, ImageStore, StoreView, StoredImage,
    MAX_STORED_IMAGE_BYTES,
};
use crate::decimal::{
    decimal_text, digits_value, lemma_decimal_text, push_decimal, text_bytes,
};
use crate::num::max_of;
use crate::terminal::snapshot::{TerminalSize, TerminalSnapshot};
use crate::terminal::stream::{bytes_of_base64, decode_base64_bytes};
use crate::text::{contains_bytes, has_run, same_bytes};

verus! {

/// A Kitty transmission whose chunks are still arriving, or whose data has
/// arrived.
#[derive(Debug)]
pub struct PendingKitty {
    pub id: u32,
    pub encoded: Vec<u8>,
    pub parameters: Vec<u8>,
    pub action: u8,
}

/// A transmission by its values.
#[verifier::ext_equal]
pub struct Transmission {
    pub id: u32,
    pub encoded: Seq<u8>,
    pub parameters: Seq<u8>,
    pub action: u8,
}

impl View for PendingKitty {
    type V = Transmission;

    open spec fn view(&self) -> Transmission {
        Transmission {
            id: self.id,
            encoded: self.encoded@,
            parameters: self.parameters@,
            action: self.action,
        }
    }
}

/// A transmission that names a file: its image is in the file at `path`.
#[derive(Debug)]
pub struct FileTransmission {
    pub id: u32,
    pub path: Vec<u8>,
    pub parameters: Vec<u8>,
    pub action: u8,
    pub cursor: (i32, usize),
}

/// A file transmission by its values.
#[verifier::ext_equal]
pub struct FileRequest {
    pub id: u32,
    pub path: Seq<u8>,
    pub parameters: Seq<u8>,
    pub action: u8,
    pub cursor: (i32, usize),
}

impl View for FileTransmission {
    type V = FileRequest;

    open spec fn view(&self) -> FileRequest {
        FileRequest {
            id: self.id,
            path: self.path@,
            parameters: self.parameters@,
            action: self.action,
            cursor: self.cursor,
        }
    }
}

/// The state of a terminal's graphics.
#[verifier::ext_equal]
pub struct GraphicsView {
    /// The bytes of an unfinished sequence.
    pub unfinished: Seq<u8>,
    pub store: StoreView,
    pub pending: Option<Transmission>,
    /// The file that must be provided before anything else is done.
    pub awaited: Option<FileRequest>,
    /// The sequences that wait for the file.
    pub queue: Seq<GraphicsSequence>,
}

/// What a sequence does: the state after it, and the answer to the program.
pub struct Outcome {
    pub state: GraphicsView,
    pub answer: Option<Seq<u8>>,
}

pub open spec fn byte_is(value: Option<Seq<u8>>, byte: char) -> bool {
    value == Some(seq![byte as u8])
}

/// A number that is given and is not 0.
pub open spec fn nonzero(number: Option<int>) -> Option<u32> {
    match number {
        Some(number) => if number != 0 {
            Some(number as u32)
        } else {
            None
        },
        None => None,
    }
}

/// The cells that placeholders of an image cover, where both counts are given
/// and positive.
pub open spec fn placeholder_cells(parameters: Seq<u8>) -> Option<(usize, usize)> {
    match (parameter_number(parameters, 'c' as u8), parameter_number(parameters, 'r' as u8)) {
        (Some(columns), Some(rows)) => if columns > 0 && rows > 0 {
            Some((columns as usize, rows as usize))
        } else {
            None
        },
        _ => None,
    }
}

/// The control data and the payload of a Kitty sequence.
pub open spec fn kitty_parts(payload: Seq<u8>) -> (Seq<u8>, Seq<u8>) {
    match split_at_first(payload, ';' as u8) {
        Some((parameters, data)) => (parameters, data),
        None => (payload, Seq::empty()),
    }
}

/// What a Kitty sequence asks for: transmission unless it says otherwise.
pub open spec fn kitty_action(parameters: Seq<u8>) -> u8 {
    match parameter_value(parameters, 'a' as u8) {
        Some(value) => if value.len() > 0 {
            value[0]
        } else {
            't' as u8
        },
        None => 't' as u8,
    }
}

/// The answer to a capability query.
pub open spec fn query_answer(id: int) -> Seq<u8> {
    seq![0x1bu8, '_' as u8, 'G' as u8, 'i' as u8, '=' as u8] + text_bytes(decimal_text(id as nat))
        + seq![';' as u8, 'O' as u8, 'K' as u8, 0x1bu8, '\\' as u8]
}

/// The image that transmitted data stands for, in the format that the
/// parameters give.
pub open spec fn transmitted_picture(data: Seq<u8>, parameters: Seq<u8>) -> Option<Picture> {
    let format = match parameter_number(parameters, 'f' as u8) {
        Some(format) => format,
        None => 100,
    };
    if format == 24 || format == 32 {
        match (parameter_number(parameters, 's' as u8), parameter_number(parameters, 'v' as u8)) {
            (Some(width), Some(height)) => raw_picture(
                data,
                width as u32,
                height as u32,
                format / 8,
            ),
            _ => None,
        }
    } else {
        encoded_picture(data)
    }
}

impl GraphicsView {
    pub open spec fn empty() -> GraphicsView {
        GraphicsView {
            unfinished: Seq::empty(),
            store: StoreView::empty(),
            pending: None,
            awaited: None,
            queue: Seq::empty(),
        }
    }

    /// The state without images and without a pending transmission.
    pub open spec fn cleared(self) -> GraphicsView {
        GraphicsView {
            store: StoreView { images: Seq::empty(), ..self.store },
            pending: None,
            ..self
        }
    }

    pub open spec fn pending_id(self) -> Option<u32> {
        match self.pending {
            Some(pending) => Some(pending.id),
            None => None,
        }
    }

    /// The state after a transmission is complete and its image decoded.
    pub open spec fn received(
        self,
        id: u32,
        parameters: Seq<u8>,
        action: u8,
        picture: Option<Picture>,
        cursor: (i32, usize),
    ) -> GraphicsView {
        match picture {
            Some(picture) => {
                let shown = action == 'T' as u8;
                let virtual_placement = parameter_number(parameters, 'U' as u8) == Some(1int);
                GraphicsView {
                    store: self.store.stored(
                        id,
                        picture,
                        if shown && !virtual_placement {
                            Some(placement_asked(parameters, cursor))
                        } else {
                            None
                        },
                        if shown && virtual_placement {
                            placeholder_cells(parameters)
                        } else {
                            None
                        },
                    ),
                    ..self
                }
            },
            None => self,
        }
    }

    /// The state after the last chunk of a transmission: its image is stored,
    /// or the file that it names is awaited.
    pub open spec fn completed(self, transmission: Transmission, cursor: (i32, usize)) -> GraphicsView {
        match bytes_of_base64(transmission.encoded) {
            Some(data) => if byte_is(parameter_value(transmission.parameters, 't' as u8), 'f') {
                GraphicsView {
                    awaited: Some(
                        FileRequest {
                            id: transmission.id,
                            path: data,
                            parameters: transmission.parameters,
                            action: transmission.action,
                            cursor,
                        },
                    ),
                    ..self
                }
            } else {
                self.received(
                    transmission.id,
                    transmission.parameters,
                    transmission.action,
                    transmitted_picture(data, transmission.parameters),
                    cursor,
                )
            },
            None => self,
        }
    }

    /// The state after a chunk of a transmission. Kitty sends all chunks for
    /// one image consecutively. Continuation chunks normally contain only
    /// `m=1`/`m=0`, so the first chunk's id and control data are retained
    /// until the final chunk arrives.
    pub open spec fn transmitted(
        self,
        parameters: Seq<u8>,
        data: Seq<u8>,
        action: u8,
        cursor: (i32, usize),
    ) -> GraphicsView {
        let explicit = nonzero(parameter_number(parameters, 'i' as u8));
        let pending = if explicit is Some && self.pending is Some && self.pending_id() != explicit {
            None
        } else {
            self.pending
        };
        let continued = GraphicsView { pending, ..self };
        let (named, id) = match (explicit, pending) {
            (Some(id), _) => (continued, id),
            (None, Some(pending)) => (continued, pending.id),
            (None, None) => {
                let store = self.store.allocated(None, u32::MAX as nat);
                (GraphicsView { store, ..continued }, store.next_protocol_id)
            },
        };
        let begun = if named.pending_id() == Some(id) {
            named.pending->0
        } else {
            Transmission { id, encoded: Seq::empty(), parameters, action }
        };
        if begun.encoded.len() + data.len() > MAX_GRAPHICS_BUFFER_BYTES {
            GraphicsView { pending: None, ..named }
        } else {
            let grown = Transmission { encoded: begun.encoded + data, ..begun };
            if parameter_number(parameters, 'm' as u8) == Some(1int) {
                GraphicsView { pending: Some(grown), ..named }
            } else {
                GraphicsView { pending: None, ..named }.completed(grown, cursor)
            }
        }
    }

    /// The state after a stored image is placed again.
    pub open spec fn placed(self, parameters: Seq<u8>, cursor: (i32, usize)) -> GraphicsView {
        match parameter_number(parameters, 'i' as u8) {
            Some(number) => {
                let id = number as u32;
                if self.store.contains(id) {
                    let image = self.store.image(id);
                    let image = if byte_is(parameter_value(parameters, 'U' as u8), '1') {
                        StoredImage {
                            placement: None,
                            placeholder_size: placeholder_cells(parameters),
                            ..image
                        }
                    } else {
                        StoredImage {
                            placement: Some(
                                placed_at(
                                    cursor,
                                    image.width as int,
                                    image.height as int,
                                    parameter_number(parameters, 'c' as u8),
                                    parameter_number(parameters, 'r' as u8),
                                ),
                            ),
                            ..image
                        }
                    };
                    GraphicsView { store: self.store.with_image(image), ..self }
                } else {
                    self
                }
            },
            None => self,
        }
    }

    /// The state after images are deleted: all of them, or one.
    pub open spec fn deleted(self, parameters: Seq<u8>) -> GraphicsView {
        let what = parameter_value(parameters, 'd' as u8);
        if byte_is(what, 'a') || byte_is(what, 'A') {
            self.cleared()
        } else if byte_is(what, 'i') || byte_is(what, 'I') {
            match parameter_number(parameters, 'i' as u8) {
                Some(id) => GraphicsView { store: self.store.without(id as u32), ..self },
                None => self,
            }
        } else {
            self
        }
    }

    /// What a Kitty sequence does.
    pub open spec fn kitty(self, payload: Seq<u8>, cursor: (i32, usize)) -> Outcome {
        let (parameters, data) = kitty_parts(payload);
        let action = kitty_action(parameters);
        if action == 'q' as u8 {
            Outcome {
                state: self,
                answer: match nonzero(parameter_number(parameters, 'i' as u8)) {
                    Some(id) => Some(query_answer(id as int)),
                    None => None,
                },
            }
        } else if action == 'd' as u8 {
            Outcome { state: self.deleted(parameters), answer: None }
        } else if action == 'p' as u8 {
            Outcome { state: self.placed(parameters, cursor), answer: None }
        } else if action == 'T' as u8 || action == 't' as u8 {
            Outcome { state: self.transmitted(parameters, data, action, cursor), answer: None }
        } else {
            Outcome { state: self, answer: None }
        }
    }

    /// The state after an image is stored under a new id.
    pub open spec fn shown(self, picture: Picture, placement: ImagePlacement) -> GraphicsView {
        let store = self.store.allocated(self.pending_id(), u32::MAX as nat);
        GraphicsView {
            store: store.stored(store.next_protocol_id, picture, Some(placement), None),
            ..self
        }
    }

    /// The state after an iTerm2 sequence: an inline file that holds an image
    /// is shown at the cursor.
    pub open spec fn iterm(self, payload: Seq<u8>, cursor: (i32, usize)) -> GraphicsView {
        match iterm_image(payload) {
            Some((options, picture)) => self.shown(picture, iterm_placement(options, picture, cursor)),
            None => self,
        }
    }

    /// The state after a Sixel sequence.
    pub open spec fn sixel(self, payload: Seq<u8>, cursor: (i32, usize)) -> GraphicsView {
        match sixel_picture(payload) {
            Some(picture) => self.shown(
                picture,
                placed_at(cursor, picture.width as int, picture.height as int, None, None),
            ),
            None => self,
        }
    }

    /// What a sequence does.
    pub open spec fn handled(self, sequence: GraphicsSequence, cursor: (i32, usize)) -> Outcome {
        match sequence.kind {
            GraphicsKind::Kitty => self.kitty(sequence.payload, cursor),
            GraphicsKind::Iterm => Outcome {
                state: self.iterm(sequence.payload, cursor),
                answer: None,
            },
            GraphicsKind::Sixel => Outcome {
                state: self.sixel(sequence.payload, cursor),
                answer: None,
            },
        }
    }

    /// The state after the queued sequences, up to the first that awaits a
    /// file, and the answers to them after those before.
    pub open spec fn run(self, cursor: (i32, usize), answers: Seq<Seq<u8>>) -> (
        GraphicsView,
        Seq<Seq<u8>>,
    )
        decreases self.queue.len(),
    {
        if self.awaited is Some || self.queue.len() == 0 {
            (self, answers)
        } else {
            let outcome = GraphicsView { queue: self.queue.drop_first(), ..self }.handled(
                self.queue[0],
                cursor,
            );
            if outcome.state.queue.len() < self.queue.len() {
                outcome.state.run(
                    cursor,
                    match outcome.answer {
                        Some(answer) => answers.push(answer),
                        None => answers,
                    },
                )
            } else {
                (outcome.state, answers)
            }
        }
    }

    /// The state after a piece of the stream, and the answers to what it
    /// completes.
    pub open spec fn fed(self, bytes: Seq<u8>, cursor: (i32, usize)) -> (
        GraphicsView,
        Seq<Seq<u8>>,
    ) {
        if bytes.len() == 0 {
            (self, Seq::empty())
        } else {
            let (wiped, answers) = if erases(bytes) {
                self.erased()
            } else {
                (self, Seq::empty())
            };
            let scan = scanned(self.unfinished + bytes);
            GraphicsView {
                unfinished: scan.rest,
                queue: wiped.queue + scan.sequences,
                ..wiped
            }.run(cursor, answers)
        }
    }

    /// Sequences wait only for a file.
    pub open spec fn settled(self) -> bool {
        self.awaited is None ==> self.queue.len() == 0
    }

    /// The state once it waits for no file any more, and the answers to what
    /// waited for one.
    pub open spec fn given_up(self) -> (GraphicsView, Seq<Seq<u8>>)
        decreases self.queue.len(),
    {
        let (after, answers) = self.with_file(None);
        if after.awaited is Some && after.queue.len() < self.queue.len() {
            let (last, more) = after.given_up();
            (last, answers + more)
        } else {
            (after, answers)
        }
    }

    /// The state after an erase: it drops every image, those too that a file
    /// was awaited for.
    pub open spec fn erased(self) -> (GraphicsView, Seq<Seq<u8>>) {
        let (after, answers) = self.given_up();
        (after.cleared(), answers)
    }

    /// The state after the awaited file is provided, or is not to be had, and
    /// the answers to what waited for it.
    pub open spec fn with_file(self, contents: Option<Seq<u8>>) -> (GraphicsView, Seq<Seq<u8>>) {
        match self.awaited {
            Some(request) => {
                let picture = match contents {
                    Some(contents) => encoded_picture(contents),
                    None => None,
                };
                GraphicsView { awaited: None, ..self }.received(
                    request.id,
                    request.parameters,
                    request.action,
                    picture,
                    request.cursor,
                ).run(request.cursor, Seq::empty())
            },
            None => (self, Seq::empty()),
        }
    }
}

/// The stream erases the screen or the scrollback: `ESC [ 2 J`, `ESC [ 3 J`.
pub open spec fn erases(bytes: Seq<u8>) -> bool {
    has_run(bytes, seq![0x1bu8, 0x5bu8, 0x32u8, 0x4au8]) || has_run(
        bytes,
        seq![0x1bu8, 0x5bu8, 0x33u8, 0x4au8],
    )
}

/// The options and the image of an iTerm2 sequence, where it is an inline
/// file that holds an image.
pub open spec fn iterm_image(payload: Seq<u8>) -> Option<(Seq<u8>, Picture)> {
    let prefix = "1337;File=".spec_bytes();
    if payload.len() < prefix.len() || payload.take(prefix.len() as int) != prefix {
        None
    } else {
        match split_at_first(payload.skip(prefix.len() as int), ':' as u8) {
            Some((options, encoded)) => if byte_is(
                option_value(options, "inline".spec_bytes()),
                '1',
            ) {
                match bytes_of_base64(encoded) {
                    Some(data) => match encoded_picture(data) {
                        Some(picture) => Some((options, picture)),
                        None => None,
                    },
                    None => None,
                }
            } else {
                None
            },
            None => None,
        }
    }
}

pub open spec fn option_dimension(options: Seq<u8>, name: Seq<u8>) -> Option<int> {
    match option_value(options, name) {
        Some(value) => dimension_number(value),
        None => None,
    }
}

/// Where an inline image is shown: at the cursor, in the dimensions that its
/// options ask for.
pub open spec fn iterm_placement(
    options: Seq<u8>,
    picture: Picture,
    cursor: (i32, usize),
) -> ImagePlacement {
    let width = option_dimension(options, "width".spec_bytes());
    let height = option_dimension(options, "height".spec_bytes());
    let placement = placed_at(
        cursor,
        picture.width as int,
        picture.height as int,
        width,
        height,
    );
    if byte_is(option_value(options, "preserveAspectRatio".spec_bytes()), '0') {
        ImagePlacement {
            width: match width {
                Some(width) => max_of(width, 1) as usize,
                None => placement.width,
            },
            height: match height {
                Some(height) => max_of(height, 1) as usize,
                None => placement.height,
            },
            ..placement
        }
    } else {
        placement
    }
}

/// GUI-local state for terminal graphics protocols.
pub struct TerminalGraphics {
    parser: GraphicsParser,
    store: ImageStore,
    pending_kitty: Option<PendingKitty>,
    awaited: Option<FileTransmission>,
    queue: VecDeque<GraphicsEvent>,
}

pub open spec fn transmission_of(pending: Option<PendingKitty>) -> Option<Transmission> {
    match pending {
        Some(pending) => Some(pending@),
        None => None,
    }
}

pub open spec fn request_of(awaited: Option<FileTransmission>) -> Option<FileRequest> {
    match awaited {
        Some(awaited) => Some(awaited@),
        None => None,
    }
}

/// The byte strings of some answers.
pub open spec fn answers_of(answers: Seq<Vec<u8>>) -> Seq<Seq<u8>> {
    answers.map_values(|answer: Vec<u8>| answer@)
}

pub open spec fn answer_of(answer: Option<Vec<u8>>) -> Option<Seq<u8>> {
    match answer {
        Some(answer) => Some(answer@),
        None => None,
    }
}

impl View for TerminalGraphics {
    type V = GraphicsView;

    closed spec fn view(&self) -> GraphicsView {
        GraphicsView {
            unfinished: self.parser@,
            store: self.store@,
            pending: transmission_of(self.pending_kitty),
            awaited: request_of(self.awaited),
            queue: sequences_of(self.queue@),
        }
    }
}

fn is_byte(value: Option<&[u8]>, byte: u8) -> (is: bool)
    ensures
        is == match value {
            Some(value) => value@ == seq![byte],
            None => false,
        },
{
    match value {
        Some(value) => {
            let is: bool = value.len() == 1 && value[0] == byte;
            assert(is ==> value@ =~= seq![byte]);
            is
        },
        None => false,
    }
}

fn nonzero_id(number: Option<u32>) -> (id: Option<u32>)
    ensures
        id == nonzero(
            match number {
                Some(number) => Some(number as int),
                None => None,
            },
        ),
{
    match number {
        Some(number) => if number != 0 {
            Some(number)
        } else {
            None
        },
        None => None,
    }
}

pub fn placeholder_size_from_parameters(parameters: &[u8]) -> (cells: Option<(usize, usize)>)
    ensures
        cells == placeholder_cells(parameters@),
{
    let columns: Option<usize> = parameter_cells(parameters, 'c' as u8);
    let rows: Option<usize> = parameter_cells(parameters, 'r' as u8);
    match (columns, rows) {
        (Some(columns), Some(rows)) => if columns > 0 && rows > 0 {
            Some((columns, rows))
        } else {
            None
        },
        _ => None,
    }
}

/// Decodes transmitted data in the format that the parameters give.
fn decode_transmitted(data: &[u8], parameters: &[u8]) -> (image: Option<DecodedImage>)
    ensures
        picture_of(image) == transmitted_picture(data@, parameters@),
{
    let format: u32 = match parameter_u32(parameters, 'f' as u8) {
        Some(format) => format,
        None => 100,
    };
    if format == 24 || format == 32 {
        let channels: usize = if format == 24 {
            3
        } else {
            4
        };
        match (parameter_u32(parameters, 's' as u8), parameter_u32(parameters, 'v' as u8)) {
            (Some(width), Some(height)) => decode_raw_image(data, width, height, channels),
            _ => None,
        }
    } else {
        decode_encoded_image(data)
    }
}

/// The answer to a capability query.
fn answer_query(id: u32) -> (answer: Vec<u8>)
    ensures
        answer@ == query_answer(id as int),
{
    let mut answer: Vec<u8> = Vec::new();
    answer.push(0x1b);
    answer.push('_' as u8);
    answer.push('G' as u8);
    answer.push('i' as u8);
    answer.push('=' as u8);
    push_decimal(&mut answer, id as u64);
    answer.push(';' as u8);
    answer.push('O' as u8);
    answer.push('K' as u8);
    answer.push(0x1b);
    answer.push('\\' as u8);
    assert(answer@ =~= query_answer(id as int));
    answer
}

fn bytes_erase(bytes: &[u8]) -> (erase: bool)
    ensures
        erase == erases(bytes@),
{
    let screen: [u8; 4] = [0x1bu8, 0x5bu8, 0x32u8, 0x4au8];
    let scrollback: [u8; 4] = [0x1bu8, 0x5bu8, 0x33u8, 0x4au8];
    assert(screen@ =~= seq![0x1bu8, 0x5bu8, 0x32u8, 0x4au8]);
    assert(scrollback@ =~= seq![0x1bu8, 0x5bu8, 0x33u8, 0x4au8]);
    contains_bytes(bytes, &screen) || contains_bytes(bytes, &scrollback)
}

fn decode_iterm<'a>(payload: &'a [u8]) -> (image: Option<(&'a [u8], DecodedImage)>)
    ensures
        match image {
            Some((options, image)) => iterm_image(payload@) == Some((options@, image@)),
            None => iterm_image(payload@) is None,
        },
{
    let prefix: &[u8] = "1337;File=".as_bytes();
    if payload.len() < prefix.len() {
        return None;
    }
    let head = slice_subrange(payload, 0, prefix.len());
    assert(head@ =~= payload@.take(prefix@.len() as int));
    if !same_bytes(head, prefix) {
        return None;
    }
    let rest = slice_subrange(payload, prefix.len(), payload.len());
    assert(rest@ =~= payload@.skip(prefix@.len() as int));
    match split_once_byte(rest, ':' as u8) {
        Some((options, encoded)) => {
            if !is_byte(semicolon_option(options, "inline".as_bytes()), '1' as u8) {
                return None;
            }
            match decode_base64_bytes(encoded) {
                Some(data) => match decode_encoded_image(data.as_slice()) {
                    Some(image) => Some((options, image)),
                    None => None,
                },
                None => None,
            }
        },
        None => None,
    }
}

fn dimension_option(options: &[u8], name: &str) -> (dimension: Option<usize>)
    ensures
        extent(dimension) == option_dimension(options@, name.spec_bytes()),
{
    match semicolon_option(options, name.as_bytes()) {
        Some(value) => parse_dimension(value),
        None => None,
    }
}

fn place_iterm(options: &[u8], width: u32, height: u32, cursor: (i32, usize), Ghost(rgba): Ghost<
    Seq<u8>,
>) -> (placement: ImagePlacement)
    ensures
        placement == iterm_placement(options@, Picture { width, height, rgba }, cursor),
{
    let columns: Option<usize> = dimension_option(options, "width");
    let rows: Option<usize> = dimension_option(options, "height");
    let mut placement: ImagePlacement = placement_from_dimensions(
        cursor,
        width,
        height,
        columns,
        rows,
    );
    if is_byte(semicolon_option(options, "preserveAspectRatio".as_bytes()), '0' as u8) {
        placement.width = match columns {
            Some(columns) => columns.max(1),
            None => placement.width,
        };
        placement.height = match rows {
            Some(rows) => rows.max(1),
            None => placement.height,
        };
    }
    placement
}

impl Default for TerminalGraphics {
    fn default() -> (graphics: Self)
        ensures
            graphics.wf(),
            graphics@ == GraphicsView::empty(),
    {
        Self::new()
    }
}

impl TerminalGraphics {
    /// What is kept is sound.
    pub closed spec fn sound(&self) -> bool {
        self.store.wf()
    }

    /// What is kept is sound, and sequences wait only for a file.
    pub open spec fn wf(&self) -> bool {
        self.sound() && self@.settled()
    }

    pub fn new() -> (graphics: Self)
        ensures
            graphics.wf(),
            graphics@ == GraphicsView::empty(),
    {
        let graphics = Self {
            parser: GraphicsParser::default(),
            store: ImageStore::new(),
            pending_kitty: None,
            awaited: None,
            queue: VecDeque::new(),
        };
        assert(graphics@ =~= GraphicsView::empty());
        graphics
    }

    fn clear_images(&mut self)
        ensures
            final(self).sound(),
            final(self)@ == old(self)@.cleared(),
    {
        self.store.clear();
        self.pending_kitty = None;
    }

    /// Stores the image of a complete transmission, where it was decoded.
    pub fn receive(
        &mut self,
        id: u32,
        parameters: &[u8],
        action: u8,
        image: Option<DecodedImage>,
        cursor: (i32, usize),
    )
        requires
            old(self).sound(),
        ensures
            final(self).sound(),
            old(self).wf() ==> final(self).wf(),
            final(self)@ == old(self)@.received(
                id,
                parameters@,
                action,
                picture_of(image),
                cursor,
            ),
    {
        if let Some(image) = image {
            let shown: bool = action == 'T' as u8;
            let virtual_placement: bool = match parameter_u32(parameters, 'U' as u8) {
                Some(number) => number == 1,
                None => false,
            };
            let placement: Option<ImagePlacement> = if shown && !virtual_placement {
                Some(placement_from_parameters(parameters, cursor))
            } else {
                None
            };
            let placeholder_size: Option<(usize, usize)> = if shown && virtual_placement {
                placeholder_size_from_parameters(parameters)
            } else {
                None
            };
            self.store.store(id, image, placement, placeholder_size);
        }
    }

    fn complete(&mut self, transmission: PendingKitty, cursor: (i32, usize))
        requires
            old(self).sound(),
        ensures
            final(self).sound(),
            final(self)@ == old(self)@.completed(transmission@, cursor),
    {
        let data: Vec<u8> = match decode_base64_bytes(transmission.encoded.as_slice()) {
            Some(data) => data,
            None => {
                return;
            },
        };
        if is_byte(parameter(transmission.parameters.as_slice(), 't' as u8), 'f' as u8) {
            self.awaited = Some(
                FileTransmission {
                    id: transmission.id,
                    path: data,
                    parameters: transmission.parameters,
                    action: transmission.action,
                    cursor,
                },
            );
            return;
        }
        let image: Option<DecodedImage> = decode_transmitted(
            data.as_slice(),
            transmission.parameters.as_slice(),
        );
        self.receive(
            transmission.id,
            transmission.parameters.as_slice(),
            transmission.action,
            image,
            cursor,
        );
    }

    fn transmit(&mut self, parameters: &[u8], data: &[u8], action: u8, cursor: (i32, usize))
        requires
            old(self).sound(),
        ensures
            final(self).sound(),
            final(self)@ == old(self)@.transmitted(parameters@, data@, action, cursor),
    {
        let explicit: Option<u32> = nonzero_id(parameter_u32(parameters, 'i' as u8));
        let mut pending: Option<PendingKitty> = None;
        std::mem::swap(&mut pending, &mut self.pending_kitty);
        if let Some(id) = explicit {
            let replaced: bool = match &pending {
                Some(pending) => pending.id != id,
                None => false,
            };
            if replaced {
                pending = None;
            }
        }
        let id: u32 = match explicit {
            Some(id) => id,
            None => match &pending {
                Some(pending) => pending.id,
                None => self.store.allocate_protocol_id(None),
            },
        };
        let mut begun: PendingKitty = match pending {
            Some(pending) => pending,
            None => PendingKitty {
                id,
                encoded: Vec::new(),
                parameters: slice_to_vec(parameters),
                action,
            },
        };
        if begun.encoded.len().saturating_add(data.len()) > MAX_GRAPHICS_BUFFER_BYTES {
            return;
        }
        let ghost encoded = begun.encoded@;
        begun.encoded.extend_from_slice(data);
        assert(begun.encoded@ =~= encoded + data@);
        let more: bool = match parameter_u32(parameters, 'm' as u8) {
            Some(number) => number == 1,
            None => false,
        };
        if more {
            self.pending_kitty = Some(begun);
        } else {
            self.complete(begun, cursor);
        }
    }

    fn place(&mut self, parameters: &[u8], cursor: (i32, usize))
        requires
            old(self).sound(),
        ensures
            final(self).sound(),
            final(self)@ == old(self)@.placed(parameters@, cursor),
    {
        let id: u32 = match parameter_u32(parameters, 'i' as u8) {
            Some(id) => id,
            None => {
                return;
            },
        };
        let (width, height): (u32, u32) = match self.store.dimensions(id) {
            Some(dimensions) => dimensions,
            None => {
                return;
            },
        };
        if is_byte(parameter(parameters, 'U' as u8), '1' as u8) {
            self.store.set_placement(id, None, placeholder_size_from_parameters(parameters));
        } else {
            let (_, placeholder_size): (Option<ImagePlacement>, Option<(usize, usize)>) =
                self.store.placements(id);
            let placement: ImagePlacement = placement_from_dimensions(
                cursor,
                width,
                height,
                parameter_cells(parameters, 'c' as u8),
                parameter_cells(parameters, 'r' as u8),
            );
            self.store.set_placement(id, Some(placement), placeholder_size);
        }
    }

    fn delete_kitty(&mut self, parameters: &[u8])
        requires
            old(self).sound(),
        ensures
            final(self).sound(),
            final(self)@ == old(self)@.deleted(parameters@),
    {
        let what: Option<&[u8]> = parameter(parameters, 'd' as u8);
        if is_byte(what, 'a' as u8) || is_byte(what, 'A' as u8) {
            self.clear_images();
        } else if is_byte(what, 'i' as u8) || is_byte(what, 'I' as u8) {
            if let Some(id) = parameter_u32(parameters, 'i' as u8) {
                self.store.remove(id);
            }
        }
    }

    fn handle_kitty(&mut self, payload: &[u8], cursor: (i32, usize)) -> (answer: Option<Vec<u8>>)
        requires
            old(self).sound(),
        ensures
            final(self).sound(),
            final(self)@ == old(self)@.kitty(payload@, cursor).state,
            answer_of(answer) == old(self)@.kitty(payload@, cursor).answer,
    {
        let empty: [u8; 0] = [];
        assert(empty@ =~= Seq::empty());
        let (parameters, data): (&[u8], &[u8]) = match split_once_byte(payload, ';' as u8) {
            Some(parts) => parts,
            None => (payload, &empty),
        };
        let action: u8 = match parameter(parameters, 'a' as u8) {
            Some(value) => if value.len() > 0 {
                value[0]
            } else {
                't' as u8
            },
            None => 't' as u8,
        };
        if action == 'q' as u8 {
            return match nonzero_id(parameter_u32(parameters, 'i' as u8)) {
                Some(id) => Some(answer_query(id)),
                None => None,
            };
        }
        if action == 'd' as u8 {
            self.delete_kitty(parameters);
        } else if action == 'p' as u8 {
            self.place(parameters, cursor);
        } else if action == 'T' as u8 || action == 't' as u8 {
            self.transmit(parameters, data, action, cursor);
        }
        None
    }

    /// Shows an image under a new id.
    pub fn show(&mut self, image: DecodedImage, placement: ImagePlacement)
        requires
            old(self).sound(),
        ensures
            final(self).sound(),
            old(self).wf() ==> final(self).wf(),
            final(self)@ == old(self)@.shown(image@, placement),
    {
        let pending: Option<u32> = match &self.pending_kitty {
            Some(pending) => Some(pending.id),
            None => None,
        };
        let id: u32 = self.store.allocate_protocol_id(pending);
        self.store.store(id, image, Some(placement), None);
    }

    fn handle_iterm(&mut self, payload: &[u8], cursor: (i32, usize))
        requires
            old(self).sound(),
        ensures
            final(self).sound(),
            final(self)@ == old(self)@.iterm(payload@, cursor),
    {
        if let Some((options, image)) = decode_iterm(payload) {
            let placement: ImagePlacement = place_iterm(
                options,
                image.width,
                image.height,
                cursor,
                Ghost(image.rgba@),
            );
            self.show(image, placement);
        }
    }

    fn handle_sixel(&mut self, payload: &[u8], cursor: (i32, usize))
        requires
            old(self).sound(),
        ensures
            final(self).sound(),
            final(self)@ == old(self)@.sixel(payload@, cursor),
    {
        if let Some(image) = decode_sixel(payload) {
            let placement: ImagePlacement = placement_from_dimensions(
                cursor,
                image.width,
                image.height,
                None,
                None,
            );
            self.show(image, placement);
        }
    }

    /// Handles the queued sequences, up to the first that awaits a file.
    fn run_queue(&mut self, cursor: (i32, usize), earlier: Vec<Vec<u8>>) -> (answers: Vec<Vec<u8>>)
        requires
            old(self).sound(),
        ensures
            final(self).wf(),
            (final(self)@, answers_of(answers@)) == old(self)@.run(cursor, answers_of(earlier@)),
    {
        proof {
            lemma_running_settles(self@, cursor, answers_of(earlier@));
        }
        let mut answers: Vec<Vec<u8>> = earlier;
        let ghost whole = self@.run(cursor, answers_of(answers@));
        while self.awaited.is_none() && self.queue.len() > 0
            invariant
                self.sound(),
                whole == old(self)@.run(cursor, answers_of(earlier@)),
                whole == self@.run(cursor, answers_of(answers@)),
            decreases self.queue@.len(),
        {
            let ghost before = self@;
            let ghost told = answers@;
            if let Some(event) = self.queue.pop_front() {
                let ghost popped = GraphicsView { queue: before.queue.drop_first(), ..before };
                assert(self@ =~= popped);
                assert(event@ == before.queue[0]);
                proof {
                    lemma_handling_keeps_the_queue(popped, event@, cursor);
                }
                match event {
                    GraphicsEvent::Kitty(payload) => {
                        let answer: Option<Vec<u8>> = self.handle_kitty(
                            payload.as_slice(),
                            cursor,
                        );
                        if let Some(answer) = answer {
                            answers.push(answer);
                            assert(answers_of(answers@) =~= answers_of(told).push(answer@));
                        }
                    },
                    GraphicsEvent::Iterm(payload) => self.handle_iterm(payload.as_slice(), cursor),
                    GraphicsEvent::Sixel(payload) => self.handle_sixel(payload.as_slice(), cursor),
                }
                assert(self@.queue.len() == self.queue@.len());
            }
        }
        answers
    }

    /// Takes the next piece of the stream and returns the answers to the
    /// programs whose sequences it completes. A sequence that names a file
    /// holds up those after it until the file is provided.
    pub fn feed(&mut self, bytes: &[u8], cursor: (i32, usize)) -> (answers: Vec<Vec<u8>>)
        requires
            old(self).wf(),
        ensures
            final(self).wf(),
            (final(self)@, answers_of(answers@)) == old(self)@.fed(bytes@, cursor),
    {
        if bytes.len() == 0 {
            let answers: Vec<Vec<u8>> = Vec::new();
            assert(answers_of(answers@) =~= Seq::empty());
            return answers;
        }
        // Full-screen TUI redraws conventionally erase terminal images too.
        // Kitty applications normally send an explicit delete action, while
        // this covers Sixel/iTerm2 producers that rely on the erase command.
        let mut answers: Vec<Vec<u8>> = Vec::new();
        assert(answers_of(answers@) =~= Seq::empty());
        if bytes_erase(bytes) {
            answers = self.give_up();
            self.clear_images();
        }
        let ghost wiped = self@;
        proof {
            lemma_giving_up(old(self)@);
        }
        let events: Vec<GraphicsEvent> = self.parser.feed(bytes);
        let ghost sequences = sequences_of(events@);
        let mut incoming: VecDeque<GraphicsEvent> = deque_of(events);
        let ghost queued = self.queue@;
        self.queue.append(&mut incoming);
        assert(sequences_of(self.queue@) =~= sequences_of(queued) + sequences);
        assert(self@ =~= (GraphicsView {
            unfinished: scanned(old(self)@.unfinished + bytes@).rest,
            queue: wiped.queue + sequences,
            ..wiped
        }));
        self.run_queue(cursor, answers)
    }

    /// Waits for no file any more, and returns the answers to what waited for
    /// one.
    fn give_up(&mut self) -> (answers: Vec<Vec<u8>>)
        requires
            old(self).wf(),
        ensures
            final(self).wf(),
            (final(self)@, answers_of(answers@)) == old(self)@.given_up(),
        decreases old(self)@.queue.len(),
    {
        let mut answers: Vec<Vec<u8>> = self.provide_file(None);
        proof {
            lemma_a_file_is_asked_for_once(old(self)@, None);
        }
        if self.awaited.is_some() {
            let ghost first = answers@;
            let mut more: Vec<Vec<u8>> = self.give_up();
            let ghost second = more@;
            answers.append(&mut more);
            assert(answers_of(answers@) =~= answers_of(first) + answers_of(second));
        }
        answers
    }

    /// The images that a viewport shows, in the order of their ids.
    pub fn snapshot(
        &self,
        display_offset: usize,
        size: TerminalSize,
        terminal_snapshot: &TerminalSnapshot,
    ) -> (images: Arc<[TerminalImage]>)
        requires
            self.wf(),
            terminal_snapshot@.rows.len() <= i32::MAX,
            0 <= terminal_snapshot.display_offset as i32,
            size.lines as i32 + IMAGE_OVERSCAN_ROWS <= i32::MAX,
        ensures
            placed_images(images@) == images_shown(
                self@.store.images,
                display_offset,
                size.lines,
                terminal_snapshot@,
            ),
    {
        proof {
            self.store.wf_is_valid();
        }
        show_images(&self.store, display_offset, size, terminal_snapshot)
    }

    /// The path of the file that is awaited.
    pub fn awaited_file(&self) -> (path: Option<&[u8]>)
        ensures
            match path {
                Some(path) => self@.awaited is Some && path@ == (self@.awaited->0).path,
                None => self@.awaited is None,
            },
    {
        match &self.awaited {
            Some(awaited) => Some(awaited.path.as_slice()),
            None => None,
        }
    }

    /// Provides the contents of the awaited file, or that it is not to be had,
    /// and returns the answers to what waited for it.
    pub fn provide_file(&mut self, contents: Option<Vec<u8>>) -> (answers: Vec<Vec<u8>>)
        requires
            old(self).wf(),
        ensures
            final(self).wf(),
            (final(self)@, answers_of(answers@)) == old(self)@.with_file(
                match contents {
                    Some(contents) => Some(contents@),
                    None => None,
                },
            ),
    {
        let mut awaited: Option<FileTransmission> = None;
        std::mem::swap(&mut awaited, &mut self.awaited);
        match awaited {
            Some(request) => {
                let image: Option<DecodedImage> = match contents {
                    Some(contents) => decode_encoded_image(contents.as_slice()),
                    None => None,
                };
                self.receive(
                    request.id,
                    request.parameters.as_slice(),
                    request.action,
                    image,
                    request.cursor,
                );
                let answers: Vec<Vec<u8>> = Vec::new();
                assert(answers_of(answers@) =~= Seq::empty());
                self.run_queue(request.cursor, answers)
            },
            None => {
                let answers: Vec<Vec<u8>> = Vec::new();
                assert(answers_of(answers@) =~= Seq::empty());
                answers
            },
        }
    }
}

fn deque_of(events: Vec<GraphicsEvent>) -> (queue: VecDeque<GraphicsEvent>)
    ensures
        queue@ == events@,
{
    let mut queue: VecDeque<GraphicsEvent> = VecDeque::new();
    let mut rest: Vec<GraphicsEvent> = events;
    assert(rest@ + queue@ =~= events@);
    while rest.len() > 0
        invariant
            rest@ + queue@ == events@,
        decreases rest@.len(),
    {
        let ghost before = rest@;
        let ghost after = queue@;
        if let Some(event) = rest.pop() {
            queue.push_front(event);
            assert(rest@ + queue@ =~= before + after);
        }
    }
    assert(rest@ + queue@ =~= queue@);
    queue
}

proof fn lemma_handling_keeps_the_queue(
    state: GraphicsView,
    sequence: GraphicsSequence,
    cursor: (i32, usize),
)
    ensures
        state.handled(sequence, cursor).state.queue == state.queue,
{
}

proof fn lemma_running_shortens_the_queue(
    state: GraphicsView,
    cursor: (i32, usize),
    answers: Seq<Seq<u8>>,
)
    ensures
        state.run(cursor, answers).0.unfinished == state.unfinished,
        state.run(cursor, answers).0.queue.len() <= state.queue.len(),
        state.awaited is None && state.run(cursor, answers).0.awaited is Some ==> state.run(
            cursor,
            answers,
        ).0.queue.len() < state.queue.len(),
    decreases state.queue.len(),
{
    if state.awaited is None && state.queue.len() > 0 {
        let popped = GraphicsView { queue: state.queue.drop_first(), ..state };
        lemma_handling_keeps_the_queue(popped, state.queue[0], cursor);
        let outcome = popped.handled(state.queue[0], cursor);
        lemma_running_shortens_the_queue(
            outcome.state,
            cursor,
            match outcome.answer {
                Some(answer) => answers.push(answer),
                None => answers,
            },
        );
    }
}

proof fn lemma_a_file_is_asked_for_once(state: GraphicsView, contents: Option<Seq<u8>>)
    ensures
        state.with_file(contents).0.unfinished == state.unfinished,
        state.with_file(contents).0.awaited is Some ==> state.with_file(contents).0.queue.len()
            < state.queue.len(),
{
    if let Some(request) = state.awaited {
        let picture = match contents {
            Some(contents) => encoded_picture(contents),
            None => None,
        };
        let received = GraphicsView { awaited: None, ..state }.received(
            request.id,
            request.parameters,
            request.action,
            picture,
            request.cursor,
        );
        assert(received.queue == state.queue && received.awaited is None);
        lemma_running_shortens_the_queue(received, request.cursor, Seq::empty());
    }
}

proof fn lemma_giving_up(state: GraphicsView)
    ensures
        state.given_up().0.awaited is None,
        state.given_up().0.unfinished == state.unfinished,
    decreases state.queue.len(),
{
    lemma_a_file_is_asked_for_once(state, None);
    if state.with_file(None).0.awaited is Some {
        lemma_giving_up(state.with_file(None).0);
    }
}

/// The images that a terminal keeps never take more than their limit.
pub proof fn kept_images_are_bounded(graphics: TerminalGraphics)
    requires
        graphics.wf(),
    ensures
        graphics@.store.valid(),
        image_bytes(graphics@.store.images) <= MAX_STORED_IMAGE_BYTES,
{
    graphics.store.wf_is_valid();
}

/// A query for the protocol is answered with the id that it asks by, and
/// changes nothing.
pub proof fn a_query_is_answered(state: GraphicsView, payload: Seq<u8>, cursor: (i32, usize), id: u32)
    requires
        kitty_action(kitty_parts(payload).0) == 'q' as u8,
        nonzero(parameter_number(kitty_parts(payload).0, 'i' as u8)) == Some(id),
    ensures
        state.kitty(payload, cursor).state == state,
        state.kitty(payload, cursor).answer == Some(query_answer(id as int)),
{
}

/// An erase of the screen or of the scrollback drops every image that was
/// kept, the transmission that was under way and the file that was awaited: a
/// file that is provided afterwards shows nothing.
pub proof fn an_erase_drops_the_images(
    graphics: TerminalGraphics,
    bytes: Seq<u8>,
    cursor: (i32, usize),
    contents: Option<Seq<u8>>,
)
    requires
        graphics.wf(),
        erases(bytes),
        scanned(graphics@.unfinished + bytes).sequences.len() == 0,
    ensures
        ({
            let after = graphics@.fed(bytes, cursor).0;
            &&& after.store.images.len() == 0
            &&& after.pending is None
            &&& after.awaited is None
            &&& after.with_file(contents).0 == after
        }),
{
    let state = graphics@;
    lemma_giving_up(state);
    lemma_giving_up_empties_the_queue(state);
    let wiped = state.erased().0;
    let scan = scanned(state.unfinished + bytes);
    assert((wiped.queue + scan.sequences).len() == 0);
}

proof fn lemma_running_settles(state: GraphicsView, cursor: (i32, usize), answers: Seq<Seq<u8>>)
    ensures
        state.run(cursor, answers).0.settled(),
    decreases state.queue.len(),
{
    if state.awaited is None && state.queue.len() > 0 {
        let popped = GraphicsView { queue: state.queue.drop_first(), ..state };
        lemma_handling_keeps_the_queue(popped, state.queue[0], cursor);
        let outcome = popped.handled(state.queue[0], cursor);
        lemma_running_settles(
            outcome.state,
            cursor,
            match outcome.answer {
                Some(answer) => answers.push(answer),
                None => answers,
            },
        );
    }
}

proof fn lemma_giving_up_empties_the_queue(state: GraphicsView)
    requires
        state.settled(),
    ensures
        state.given_up().0.queue.len() == 0,
    decreases state.queue.len(),
{
    lemma_a_file_is_asked_for_once(state, None);
    let after = state.with_file(None).0;
    if let Some(request) = state.awaited {
        if after.awaited is Some {
            lemma_giving_up_empties_the_queue(after);
        } else {
            let received = GraphicsView { awaited: None, ..state }.received(
                request.id,
                request.parameters,
                request.action,
                None,
                request.cursor,
            );
            lemma_running_settles(received, request.cursor, Seq::empty());
        }
    }
}

/// The control data of a Kitty sequence stands before the first semicolon and
/// its payload behind it.
pub proof fn a_kitty_sequence_has_two_parts(parameters: Seq<u8>, data: Seq<u8>)
    requires
        forall|i: int| 0 <= i < parameters.len() ==> #[trigger] parameters[i] != 0x3b,
    ensures
        kitty_parts(parameters + seq![0x3bu8] + data) == (parameters, data),
        kitty_parts(parameters) == (parameters, Seq::<u8>::empty()),
{
    let payload = parameters + seq![0x3bu8] + data;
    index_of_is_the_first(payload, 0x3b);
    index_of_is_the_first(parameters, 0x3b);
    let at = index_of(payload, 0x3b);
    assert(payload[parameters.len() as int] == 0x3b);
    assert(at == parameters.len()) by {
        if at < parameters.len() {
            assert(payload[at] == parameters[at]);
        }
    }
    assert(index_of(parameters, 0x3b) == parameters.len());
    assert(payload.take(at) =~= parameters);
    assert(payload.skip(at + 1) =~= data);
}

/// Raw pixels that are transmitted to be shown are stored under the id that
/// they were given, pixel for pixel, and stand at the cursor; other images stay
/// as they are and nothing is answered.
pub proof fn transmitted_pixels_are_shown(
    state: GraphicsView,
    payload: Seq<u8>,
    cursor: (i32, usize),
    id: u32,
    width: u32,
    height: u32,
    pixels: Seq<u8>,
    other: u32,
)
    requires
        state.store.valid(),
        state.pending is None,
        id != 0,
        other != id,
        0 < width <= 4096,
        0 < height <= 4096,
        width * height * 4 == pixels.len(),
        state.store.has_room(id, pixels.len() as int),
        bytes_of_base64(kitty_parts(payload).1) == Some(pixels),
        kitty_parts(payload).1.len() <= MAX_GRAPHICS_BUFFER_BYTES,
        ({
            let parameters = kitty_parts(payload).0;
            &&& parameter_value(parameters, 0x61) == Some(seq![0x54u8])
            &&& parameter_number(parameters, 0x69) == Some(id as int)
            &&& parameter_number(parameters, 0x66) == Some(32int)
            &&& parameter_number(parameters, 0x73) == Some(width as int)
            &&& parameter_number(parameters, 0x76) == Some(height as int)
            &&& parameter_value(parameters, 0x74) is None
            &&& parameter_value(parameters, 0x6d) is None
            &&& parameter_value(parameters, 0x55) is None
        }),
    ensures
        ({
            let outcome = state.kitty(payload, cursor);
            let store = outcome.state.store;
            &&& outcome.answer is None
            &&& outcome.state.pending is None
            &&& outcome.state.awaited == state.awaited
            &&& store.contains(id)
            &&& store.image(id).width == width
            &&& store.image(id).height == height
            &&& store.image(id).rgba == pixels
            &&& store.image(id).placement matches Some(placement) && placement.line == cursor.0
                && placement.column == cursor.1
            &&& store.contains(other) == state.store.contains(other)
            &&& store.contains(other) ==> store.image(other) == state.store.image(other)
        }),
{
    let (parameters, data) = kitty_parts(payload);
    assert(Seq::<u8>::empty() + data =~= data);
    let picture = raw_picture(pixels, width, height, 4);
    assert(width * height <= 4096 * 4096) by (nonlinear_arith)
        requires
            width <= 4096,
            height <= 4096,
    ;
    assert(picture is Some);
    let shown = picture->0;
    assert forall|at: int| 0 <= at < pixels.len() implies shown.rgba[at] == pixels[at] by {
        assert(at / 4 * 4 + at % 4 == at);
    }
    assert(shown.rgba =~= pixels);
    a_picture_is_stored_under_its_id(
        state.store,
        id,
        shown,
        Some(placement_asked(parameters, cursor)),
        None,
        other,
    );
}

/// The chunks of a transmission are joined in their order: one that is not the
/// last waits, and the last one completes what the first one began, with its
/// id, its parameters and its action.
pub proof fn chunks_are_joined(
    state: GraphicsView,
    first: Seq<u8>,
    last: Seq<u8>,
    front: Seq<u8>,
    back: Seq<u8>,
    action: u8,
    later_action: u8,
    cursor: (i32, usize),
    id: u32,
)
    requires
        state.pending is None,
        id != 0,
        parameter_number(first, 0x69) == Some(id as int),
        parameter_number(first, 0x6d) == Some(1int),
        parameter_number(last, 0x69) is None,
        parameter_number(last, 0x6d) == Some(0int),
        front.len() + back.len() <= MAX_GRAPHICS_BUFFER_BYTES,
    ensures
        ({
            let begun = state.transmitted(first, front, action, cursor);
            let whole = Transmission { id, encoded: front + back, parameters: first, action };
            &&& begun.store == state.store
            &&& begun.pending == Some(
                Transmission { id, encoded: front, parameters: first, action },
            )
            &&& begun.transmitted(last, back, later_action, cursor) == state.completed(
                whole,
                cursor,
            )
        }),
{
    assert(Seq::<u8>::empty() + front =~= front);
    let begun = state.transmitted(first, front, action, cursor);
    assert((GraphicsView { pending: None, ..begun }) =~= state);
}

/// A delete takes out what it names: all images and what is being transmitted,
/// or the image of an id and no other.
pub proof fn deleted_images_are_gone(
    state: GraphicsView,
    parameters: Seq<u8>,
    id: u32,
    other: u32,
)
    requires
        state.store.valid(),
        other != id,
    ensures
        parameter_value(parameters, 0x64) == Some(seq![0x61u8]) || parameter_value(parameters, 0x64)
            == Some(seq![0x41u8]) ==> state.deleted(parameters).store.images.len() == 0
            && state.deleted(parameters).pending is None,
        (parameter_value(parameters, 0x64) == Some(seq![0x69u8]) || parameter_value(
            parameters,
            0x64,
        ) == Some(seq![0x49u8])) && parameter_number(parameters, 0x69) == Some(id as int) ==> {
            let store = state.deleted(parameters).store;
            &&& !store.contains(id)
            &&& store.contains(other) == state.store.contains(other)
            &&& store.contains(other) ==> store.image(other) == state.store.image(other)
        },
        parameter_value(parameters, 0x64) is None ==> state.deleted(parameters) == state,
{
    one_image_is_taken_out(state.store, id, other);
    assert(seq![0x69u8][0] != seq![0x61u8][0]);
    assert(seq![0x69u8][0] != seq![0x41u8][0]);
    assert(seq![0x49u8][0] != seq![0x61u8][0]);
    assert(seq![0x49u8][0] != seq![0x41u8][0]);
}

/// What a Kitty sequence asks for is told by its action: a query, a delete and a
/// placement do nothing else, and an action that is not known does nothing.
pub proof fn actions_are_told_apart(state: GraphicsView, payload: Seq<u8>, cursor: (i32, usize))
    ensures
        ({
            let parameters = kitty_parts(payload).0;
            let data = kitty_parts(payload).1;
            let outcome = state.kitty(payload, cursor);
            match parameter_value(parameters, 0x61) {
                Some(value) => value.len() > 0 ==> {
                    &&& value[0] == 0x71 ==> outcome.state == state
                    &&& value[0] == 0x64 ==> outcome.state == state.deleted(parameters)
                        && outcome.answer is None
                    &&& value[0] == 0x70 ==> outcome.state == state.placed(parameters, cursor)
                        && outcome.answer is None
                    &&& value[0] == 0x54 || value[0] == 0x74 ==> outcome.state == state.transmitted(
                        parameters,
                        data,
                        value[0],
                        cursor,
                    ) && outcome.answer is None
                    &&& value[0] != 0x71 && value[0] != 0x64 && value[0] != 0x70 && value[0] != 0x54
                        && value[0] != 0x74 ==> outcome.state == state && outcome.answer is None
                },
                None => outcome.state == state.transmitted(parameters, data, 0x74, cursor)
                    && outcome.answer is None,
            }
        }),
{
}

/// The answer to a query says that the protocol is known: `ESC _ G i=`, the id
/// in decimal, `;OK` and `ESC \`.
pub proof fn a_query_is_answered_with_its_id(id: nat)
    ensures
        ({
            let answer = query_answer(id as int);
            let digits = answer.subrange(5, answer.len() - 5);
            &&& answer.len() >= 11
            &&& answer.take(5) == seq![0x1bu8, 0x5f, 0x47, 0x69, 0x3d]
            &&& answer.skip(answer.len() - 5) == seq![0x3bu8, 0x4f, 0x4b, 0x1b, 0x5c]
            &&& digits_value(digits, 0) == id
            &&& forall|i: int| 0 <= i < digits.len() ==> 0x30 <= #[trigger] digits[i] <= 0x39
        }),
{
    lemma_decimal_text(id);
    let text = decimal_text(id);
    let answer = query_answer(id as int);
    let digits = answer.subrange(5, answer.len() - 5);
    assert(digits =~= text_bytes(text));
    assert(answer.take(5) =~= seq![0x1bu8, 0x5f, 0x47, 0x69, 0x3d]);
    assert(answer.skip(answer.len() - 5) =~= seq![0x3bu8, 0x4f, 0x4b, 0x1b, 0x5c]);
    assert forall|i: int| 0 <= i < digits.len() implies 0x30 <= #[trigger] digits[i] <= 0x39 by {
        assert(digits[i] == text[i] as u8);
        assert('0' <= text[i] <= '9');
    }
}

proof fn lemma_allocating_keeps_the_images(store: StoreView, pending: Option<u32>, steps: nat)
    ensures
        store.allocated(pending, steps).images == store.images,
        store.allocated(pending, steps).next_render_id == store.next_render_id,
    decreases steps,
{
    let next = StoreView { next_protocol_id: next_id(store.next_protocol_id), ..store };
    if steps > 0 {
        lemma_allocating_keeps_the_images(next, pending, (steps - 1) as nat);
    }
}

/// A Sixel picture, and one of iTerm2, is stored under an id of its own with
/// all of its pixels and stands at the cursor.
pub proof fn an_inline_picture_is_shown_at_the_cursor(
    state: GraphicsView,
    payload: Seq<u8>,
    cursor: (i32, usize),
)
    requires
        state.store.valid(),
    ensures
        ({
            let id = state.store.allocated(state.pending_id(), u32::MAX as nat).next_protocol_id;
            &&& sixel_picture(payload) matches Some(picture) ==> (state.store.has_room(
                id,
                picture.rgba.len() as int,
            ) ==> {
                let store = state.sixel(payload, cursor).store;
                &&& store.contains(id)
                &&& store.image(id).rgba == picture.rgba
                &&& store.image(id).width == picture.width
                &&& store.image(id).height == picture.height
                &&& store.image(id).placement matches Some(placement) && placement.line == cursor.0
                    && placement.column == cursor.1
            })
            &&& sixel_picture(payload) is None ==> state.sixel(payload, cursor) == state
            &&& iterm_image(payload) matches Some((options, picture)) ==> (state.store.has_room(
                id,
                picture.rgba.len() as int,
            ) ==> {
                let store = state.iterm(payload, cursor).store;
                &&& store.contains(id)
                &&& store.image(id).rgba == picture.rgba
                &&& store.image(id).width == picture.width
                &&& store.image(id).height == picture.height
                &&& store.image(id).placement matches Some(placement) && placement.line == cursor.0
                    && placement.column == cursor.1
            })
            &&& iterm_image(payload) is None ==> state.iterm(payload, cursor) == state
        }),
{
    lemma_allocating_keeps_the_images(state.store, state.pending_id(), u32::MAX as nat);
    let store = state.store.allocated(state.pending_id(), u32::MAX as nat);
    let id = store.next_protocol_id;
    let other: u32 = if id == 0 {
        1
    } else {
        0
    };
    if let Some(picture) = sixel_picture(payload) {
        a_picture_is_stored_under_its_id(
            store,
            id,
            picture,
            Some(placed_at(cursor, picture.width as int, picture.height as int, None, None)),
            None,
            other,
        );
        removing_keeps_the_store_valid(store, id);
        removing_keeps_the_store_valid(state.store, id);
    }
    if let Some((options, picture)) = iterm_image(payload) {
        a_picture_is_stored_under_its_id(
            store,
            id,
            picture,
            Some(iterm_placement(options, picture, cursor)),
            None,
            other,
        );
        removing_keeps_the_store_valid(store, id);
        removing_keeps_the_store_valid(state.store, id);
    }
}

/// What a piece of the stream completes is handled in its order, and a piece
/// that completes nothing and erases nothing changes no image.
pub proof fn sequences_are_handled_in_order(
    state: GraphicsView,
    bytes: Seq<u8>,
    cursor: (i32, usize),
)
    requires
        state.awaited is None,
        state.queue.len() == 0,
        bytes.len() > 0,
        !erases(bytes),
    ensures
        ({
            let found = scanned(state.unfinished + bytes).sequences;
            let rest = scanned(state.unfinished + bytes).rest;
            let (after, answers) = state.fed(bytes, cursor);
            let waiting = GraphicsView { unfinished: rest, ..state };
            &&& found.len() == 0 ==> after == waiting && answers.len() == 0
            &&& found.len() == 1 ==> after == waiting.handled(found[0], cursor).state && answers
                == (match waiting.handled(found[0], cursor).answer {
                Some(answer) => seq![answer],
                None => Seq::empty(),
            })
        }),
{
    let scan = scanned(state.unfinished + bytes);
    let found = scan.sequences;
    let waiting = GraphicsView { unfinished: scan.rest, ..state };
    assert(state.queue + found =~= found);
    let queued = GraphicsView { unfinished: scan.rest, queue: found, ..state };
    let none = Seq::<Seq<u8>>::empty();
    reveal_with_fuel(GraphicsView::run, 3);
    if found.len() == 0 {
        assert(queued =~= waiting);
    } else if found.len() == 1 {
        let popped = GraphicsView { queue: queued.queue.drop_first(), ..queued };
        assert(popped =~= waiting);
        lemma_handling_keeps_the_queue(popped, found[0], cursor);
        let outcome = waiting.handled(found[0], cursor);
        match outcome.answer {
            Some(answer) => {
                assert(none.push(answer) =~= seq![answer]);
            },
            None => {},
        }
    }
}

/// The screen is erased by `ESC [ 2 J` and the scrollback by `ESC [ 3 J`,
/// wherever in a piece of the stream they stand.
pub proof fn erases_are_found(front: Seq<u8>, back: Seq<u8>)
    ensures
        erases(front + seq![0x1bu8, 0x5b, 0x32, 0x4a] + back),
        erases(front + seq![0x1bu8, 0x5b, 0x33, 0x4a] + back),
        (forall|i: int| 0 <= i < front.len() ==> #[trigger] front[i] != 0x1b) ==> !erases(front),
{
    let screen = front + seq![0x1bu8, 0x5b, 0x32, 0x4a] + back;
    let history = front + seq![0x1bu8, 0x5b, 0x33, 0x4a] + back;
    let at = front.len() as int;
    assert(screen.subrange(at, at + 4) =~= seq![0x1bu8, 0x5b, 0x32, 0x4a]);
    assert(history.subrange(at, at + 4) =~= seq![0x1bu8, 0x5b, 0x33, 0x4a]);
    if erases(front) {
        assert(exists|i: int| 0 <= i < front.len() && #[trigger] front[i] == 0x1b) by {
            let needle = if has_run(front, seq![0x1bu8, 0x5b, 0x32, 0x4a]) {
                seq![0x1bu8, 0x5b, 0x32, 0x4a]
            } else {
                seq![0x1bu8, 0x5b, 0x33, 0x4a]
            };
            let i = choose|i: int|
                0 <= i <= front.len() - needle.len() && #[trigger] front.subrange(
                    i,
                    i + needle.len(),
                ) == needle;
            assert(front.subrange(i, i + needle.len())[0] == needle[0]);
            assert(front[i] == 0x1b);
        }
    }
}

/// A stored image is placed again where the cursor is, as wide and as high as it
/// is asked to be or as it comes, and nothing else of it changes; one that is not
/// stored is not placed.
pub proof fn a_stored_image_is_placed_again(
    state: GraphicsView,
    parameters: Seq<u8>,
    cursor: (i32, usize),
    id: u32,
    other: u32,
)
    requires
        state.store.valid(),
        parameter_number(parameters, 0x69) == Some(id as int),
        other != id,
    ensures
        ({
            let after = state.placed(parameters, cursor);
            let image = state.store.image(id);
            let hidden = parameter_value(parameters, 0x55) == Some(seq![0x31u8]);
            &&& !state.store.contains(id) ==> after == state
            &&& state.store.contains(id) ==> {
                let placed = after.store.image(id);
                &&& after.store.contains(id)
                &&& placed.rgba == image.rgba
                &&& placed.width == image.width
                &&& placed.height == image.height
                &&& !hidden ==> placed.placement == Some(
                    placed_at(
                        cursor,
                        image.width as int,
                        image.height as int,
                        parameter_number(parameters, 0x63),
                        parameter_number(parameters, 0x72),
                    ),
                )
                &&& hidden ==> placed.placement is None && placed.placeholder_size
                    == placeholder_cells(parameters)
                &&& after.store.contains(other) == state.store.contains(other)
                &&& state.store.contains(other) ==> after.store.image(other) == state.store.image(
                    other,
                )
            }
        }),
{
    if state.store.contains(id) {
        assert(seq!['1' as u8] =~= seq![0x31u8]);
        let old = state.store.image(id);
        let image = if byte_is(parameter_value(parameters, 'U' as u8), '1') {
            StoredImage {
                placement: None,
                placeholder_size: placeholder_cells(parameters),
                ..old
            }
        } else {
            StoredImage {
                placement: Some(
                    placed_at(
                        cursor,
                        old.width as int,
                        old.height as int,
                        parameter_number(parameters, 'c' as u8),
                        parameter_number(parameters, 'r' as u8),
                    ),
                ),
                ..old
            }
        };
        an_image_is_replaced_in_its_place(state.store, image, other);
    }
}

/// A picture in a file is asked for by its path, and shown under its id once the
/// file is there; one that cannot be read changes no image.
pub proof fn a_file_is_asked_for(
    state: GraphicsView,
    transmission: Transmission,
    cursor: (i32, usize),
    path: Seq<u8>,
)
    requires
        bytes_of_base64(transmission.encoded) == Some(path),
        parameter_value(transmission.parameters, 0x74) == Some(seq![0x66u8]),
        state.queue.len() == 0,
    ensures
        ({
            let asked = state.completed(transmission, cursor);
            &&& asked.awaited matches Some(request) && request.path == path && request.id
                == transmission.id && request.cursor == cursor && request.action
                == transmission.action && request.parameters == transmission.parameters
            &&& asked.store == state.store
            &&& asked.with_file(None).0 == (GraphicsView { awaited: None, ..state })
        }),
{
    assert(seq!['f' as u8] =~= seq![0x66u8]);
    reveal_with_fuel(GraphicsView::run, 2);
}

/// Cells are set aside for an image where both their numbers are given and
/// neither is zero.
pub proof fn cells_are_set_aside(parameters: Seq<u8>, columns: int, rows: int)
    requires
        parameter_number(parameters, 0x63) == Some(columns),
        parameter_number(parameters, 0x72) == Some(rows),
        0 <= columns <= u32::MAX,
        0 <= rows <= u32::MAX,
    ensures
        columns > 0 && rows > 0 ==> placeholder_cells(parameters) == Some(
            (columns as usize, rows as usize),
        ),
        columns == 0 || rows == 0 ==> placeholder_cells(parameters) is None,
{
}

/// Pixels come as three or four bytes each where the format says so, and else
/// encoded.
pub proof fn a_format_says_how_pixels_come(
    data: Seq<u8>,
    parameters: Seq<u8>,
    format: int,
    width: u32,
    height: u32,
)
    requires
        parameter_number(parameters, 0x73) == Some(width as int),
        parameter_number(parameters, 0x76) == Some(height as int),
    ensures
        parameter_number(parameters, 0x66) == Some(24int) ==> transmitted_picture(data, parameters)
            == raw_picture(data, width, height, 3),
        parameter_number(parameters, 0x66) == Some(32int) ==> transmitted_picture(data, parameters)
            == raw_picture(data, width, height, 4),
        parameter_number(parameters, 0x66) is None ==> transmitted_picture(data, parameters)
            == encoded_picture(data),
        parameter_number(parameters, 0x66) == Some(format) && format != 24 && format != 32
            ==> transmitted_picture(data, parameters) == encoded_picture(data),
{
}

/// An inline picture is as wide and as high as its options ask.
pub proof fn options_ask_for_an_extent(
    options: Seq<u8>,
    picture: Picture,
    cursor: (i32, usize),
    width: int,
    height: int,
)
    requires
        option_dimension(options, "width".spec_bytes()) == Some(width),
        option_dimension(options, "height".spec_bytes()) == Some(height),
        0 < width <= usize::MAX,
        0 < height <= usize::MAX,
    ensures
        iterm_placement(options, picture, cursor) == (ImagePlacement {
            line: cursor.0,
            column: cursor.1,
            width: width as usize,
            height: height as usize,
        }),
{
}

/// Clearing takes every image and what is being transmitted, and nothing else;
/// without output nothing happens.
pub proof fn clearing_takes_every_image(state: GraphicsView, cursor: (i32, usize), id: u32)
    ensures
        !state.cleared().store.contains(id),
        state.cleared().pending is None,
        state.cleared().unfinished == state.unfinished,
        state.cleared().store.next_render_id == state.store.next_render_id,
        state.fed(Seq::empty(), cursor) == (state, Seq::<Seq<u8>>::empty()),
{
}

} // verus!

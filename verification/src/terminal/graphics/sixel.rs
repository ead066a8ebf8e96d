//! The Sixel image format.
use vstd::prelude::*;
use vstd::slice::*;

use super::image::{
    image_size_ok, picture_of, validate_image_size, DecodedImage, Picture, MAX_IMAGE_BYTES,
    MAX_IMAGE_DIMENSION,
};
use super::parameters::{index_of, position_of};
use crate::decimal::{digits_value, is_digit};
use crate::num::{max_of, min_of};

verus! {

/// The area of the largest canvas: what fits the byte limit of an image.
pub const MAX_SIXEL_PIXELS: usize = 8 * 1024 * 1024;

/// A canvas: its extent, the extent that has been painted, and the colour of
/// every painted pixel by column and row.  Other pixels are transparent.
#[verifier::ext_equal]
pub struct CanvasView {
    pub width: int,
    pub height: int,
    pub max_x: int,
    pub max_y: int,
    pub painted: Map<(int, int), [u8; 4]>,
}

/// One extent of a canvas that must reach `required`: at least doubled, and
/// never above the limit.
pub open spec fn grown(extent: int, required: int) -> int {
    min_of(max_of(max_of(extent, required), extent * 2), MAX_IMAGE_DIMENSION as int)
}

impl CanvasView {
    pub open spec fn blank() -> CanvasView {
        CanvasView { width: 0, height: 0, max_x: 0, max_y: 0, painted: Map::empty() }
    }

    /// What holds of every canvas.
    pub open spec fn valid(self) -> bool {
        &&& 0 <= self.max_x <= self.width <= MAX_IMAGE_DIMENSION
        &&& 0 <= self.max_y <= self.height <= MAX_IMAGE_DIMENSION
        &&& self.width * self.height <= MAX_SIXEL_PIXELS
        &&& forall|x: int, y: int|
            self.painted.dom().contains((x, y)) ==> 0 <= x < self.max_x && 0 <= y < self.max_y
    }

    /// The canvas with room for the required extent, as far as the limits
    /// admit it.
    pub open spec fn ensured(self, required_width: int, required_height: int) -> CanvasView {
        let wanted_width = min_of(max_of(required_width, 1), MAX_IMAGE_DIMENSION as int);
        let wanted_height = min_of(max_of(required_height, 1), MAX_IMAGE_DIMENSION as int);
        if wanted_width <= self.width && wanted_height <= self.height {
            self
        } else {
            let width = grown(self.width, wanted_width);
            let height = grown(self.height, wanted_height);
            if width * height > MAX_SIXEL_PIXELS {
                self
            } else {
                CanvasView { width, height, ..self }
            }
        }
    }

    /// The canvas with one more pixel, where it has room for it.
    pub open spec fn with_pixel(self, x: int, y: int, color: [u8; 4]) -> CanvasView {
        if x >= MAX_IMAGE_DIMENSION || y >= MAX_IMAGE_DIMENSION {
            self
        } else {
            let roomy = self.ensured(x + 1, y + 1);
            if x >= roomy.width || y >= roomy.height {
                roomy
            } else {
                CanvasView {
                    max_x: max_of(roomy.max_x, x + 1),
                    max_y: max_of(roomy.max_y, y + 1),
                    painted: roomy.painted.insert((x, y), color),
                    ..roomy
                }
            }
        }
    }

    /// One byte of the painted extent.
    pub open spec fn byte_at(self, at: int) -> u8 {
        let pixel = (at / 4 % self.max_x, at / 4 / self.max_x);
        if self.painted.dom().contains(pixel) {
            self.painted[pixel]@[at % 4]
        } else {
            0
        }
    }

    /// The painted extent as an image.
    pub open spec fn finished(self) -> Option<Picture> {
        if self.max_x == 0 || self.max_y == 0 {
            None
        } else {
            Some(
                Picture {
                    width: self.max_x as u32,
                    height: self.max_y as u32,
                    rgba: Seq::new((self.max_x * self.max_y * 4) as nat, |at: int| self.byte_at(at)),
                },
            )
        }
    }
}

/// A canvas that grows as pixels are painted on it.
struct SixelCanvas {
    width: usize,
    height: usize,
    rows: Vec<Vec<[u8; 4]>>,
    max_x: usize,
    max_y: usize,
    painted: Ghost<Map<(int, int), [u8; 4]>>,
}

/// The colour of a pixel that nothing was painted on.
spec fn transparent() -> [u8; 4] {
    [0u8, 0u8, 0u8, 0u8]
}

/// The colour of a pixel of a canvas.
spec fn pixel_of(painted: Map<(int, int), [u8; 4]>, x: int, y: int) -> [u8; 4] {
    if painted.dom().contains((x, y)) {
        painted[(x, y)]
    } else {
        transparent()
    }
}

impl View for SixelCanvas {
    type V = CanvasView;

    closed spec fn view(&self) -> CanvasView {
        CanvasView {
            width: self.width as int,
            height: self.height as int,
            max_x: self.max_x as int,
            max_y: self.max_y as int,
            painted: self.painted@,
        }
    }
}

fn extend_row(row: &mut Vec<[u8; 4]>, width: usize)
    requires
        old(row)@.len() <= width,
    ensures
        final(row)@.len() == width,
        forall|x: int| 0 <= x < old(row)@.len() ==> final(row)@[x] == old(row)@[x],
        forall|x: int| old(row)@.len() <= x < width ==> final(row)@[x] == transparent(),
{
    while row.len() < width
        invariant
            old(row)@.len() <= row@.len() <= width,
            forall|x: int| 0 <= x < old(row)@.len() ==> row@[x] == old(row)@[x],
            forall|x: int| old(row)@.len() <= x < row@.len() ==> row@[x] == transparent(),
        decreases width - row@.len(),
    {
        row.push([0u8, 0u8, 0u8, 0u8]);
    }
}

impl SixelCanvas {
    /// The canvas is valid and its rows hold its pixels.
    spec fn wf(&self) -> bool {
        &&& self@.valid()
        &&& self.rows@.len() == self.height
        &&& forall|y: int| 0 <= y < self.height ==> (#[trigger] self.rows@[y])@.len() == self.width
        &&& forall|x: int, y: int|
            0 <= y < self.height && 0 <= x < self.width ==> #[trigger] self.rows@[y]@[x]
                == pixel_of(self.painted@, x, y)
    }

    fn new() -> (canvas: Self)
        ensures
            canvas.wf(),
            canvas@ == CanvasView::blank(),
    {
        Self {
            width: 0,
            height: 0,
            rows: Vec::new(),
            max_x: 0,
            max_y: 0,
            painted: Ghost(Map::empty()),
        }
    }

    fn ensure(&mut self, required_width: usize, required_height: usize)
        requires
            old(self).wf(),
        ensures
            final(self).wf(),
            final(self)@ == old(self)@.ensured(required_width as int, required_height as int),
    {
        let limit: usize = MAX_IMAGE_DIMENSION as usize;
        let required_width: usize = required_width.max(1).min(limit);
        let required_height: usize = required_height.max(1).min(limit);
        if required_width <= self.width && required_height <= self.height {
            return;
        }
        let width: usize = self.width.max(required_width).max(self.width * 2).min(limit);
        let height: usize = self.height.max(required_height).max(self.height * 2).min(limit);
        assert(width * height <= 8192 * 8192) by (nonlinear_arith)
            requires
                width <= 8192,
                height <= 8192,
        ;
        if width * height > MAX_SIXEL_PIXELS {
            return;
        }
        let mut rows: Vec<Vec<[u8; 4]>> = Vec::new();
        let mut y: usize = 0;
        while y < height
            invariant
                y <= height,
                rows@.len() == y,
                self.wf(),
                *self == *old(self),
                self.width <= width,
                self.height <= height,
                forall|row: int|
                    0 <= row < y ==> (#[trigger] rows@[row])@.len() == width && forall|x: int|
                        0 <= x < width ==> #[trigger] rows@[row]@[x] == pixel_of(
                            self.painted@,
                            x,
                            row,
                        ),
            decreases height - y,
        {
            let mut row: Vec<[u8; 4]> = Vec::new();
            if y < self.height {
                let mut x: usize = 0;
                while x < self.width
                    invariant
                        x <= self.width,
                        row@.len() == x,
                        self.wf(),
                        y < self.height,
                        forall|k: int| 0 <= k < x ==> row@[k] == self.rows@[y as int]@[k],
                    decreases self.width - x,
                {
                    row.push(self.rows[y][x]);
                    x = x + 1;
                }
            }
            extend_row(&mut row, width);
            assert forall|x: int| 0 <= x < width implies row@[x] == pixel_of(
                self.painted@,
                x,
                y as int,
            ) by {
                if y < self.height && x < self.width {
                    assert(self.rows@[y as int]@[x] == pixel_of(self.painted@, x, y as int));
                } else {
                    assert(!self@.painted.dom().contains((x, y as int)));
                }
            }
            rows.push(row);
            y = y + 1;
        }
        self.width = width;
        self.height = height;
        self.rows = rows;
    }

    fn set(&mut self, x: usize, y: usize, color: [u8; 4])
        requires
            old(self).wf(),
        ensures
            final(self).wf(),
            final(self)@ == old(self)@.with_pixel(x as int, y as int, color),
    {
        if x >= MAX_IMAGE_DIMENSION as usize || y >= MAX_IMAGE_DIMENSION as usize {
            return;
        }
        self.ensure(x + 1, y + 1);
        if x >= self.width || y >= self.height {
            return;
        }
        let ghost before = *self;
        let mut row: Vec<[u8; 4]> = Vec::new();
        std::mem::swap(&mut row, &mut self.rows[y]);
        row[x] = color;
        self.rows[y] = row;
        self.max_x = self.max_x.max(x + 1);
        self.max_y = self.max_y.max(y + 1);
        proof {
            self.painted@ = self.painted@.insert((x as int, y as int), color);
            assert forall|column: int, line: int|
                0 <= line < self.height && 0 <= column
                    < self.width implies #[trigger] self.rows@[line]@[column] == pixel_of(
                self.painted@,
                column,
                line,
            ) by {
                assert(before.rows@[line]@[column] == pixel_of(before.painted@, column, line));
            }
        }
    }

    fn finish(self) -> (image: Option<DecodedImage>)
        requires
            self.wf(),
        ensures
            picture_of(image) == self@.finished(),
    {
        if self.max_x == 0 || self.max_y == 0 {
            return None;
        }
        let mut rgba: Vec<u8> = Vec::new();
        let mut y: usize = 0;
        while y < self.max_y
            invariant
                self.wf(),
                self.max_x > 0,
                y <= self.max_y,
                rgba@.len() == y * self.max_x * 4,
                forall|at: int| 0 <= at < rgba@.len() ==> #[trigger] rgba@[at] == self@.byte_at(at),
            decreases self.max_y - y,
        {
            let mut x: usize = 0;
            while x < self.max_x
                invariant
                    self.wf(),
                    self.max_x > 0,
                    y < self.max_y,
                    x <= self.max_x,
                    rgba@.len() == (y * self.max_x + x) * 4,
                    forall|at: int|
                        0 <= at < rgba@.len() ==> #[trigger] rgba@[at] == self@.byte_at(at),
                decreases self.max_x - x,
            {
                let pixel: [u8; 4] = self.rows[y][x];
                proof {
                    lemma_pixel_position(x as int, y as int, self.max_x as int);
                    assert(pixel == pixel_of(self.painted@, x as int, y as int));
                }
                rgba.push(pixel[0]);
                rgba.push(pixel[1]);
                rgba.push(pixel[2]);
                rgba.push(pixel[3]);
                x = x + 1;
            }
            assert((y + 1) * self.max_x == y * self.max_x + self.max_x) by (nonlinear_arith);
            y = y + 1;
        }
        proof {
            assert(self.max_x * self.max_y <= self.width * self.height) by (nonlinear_arith)
                requires
                    0 <= self.max_x <= self.width,
                    0 <= self.max_y <= self.height,
            ;
            assert(self.max_y * self.max_x == self.max_x * self.max_y) by (nonlinear_arith);
        }
        if !validate_image_size(self.max_x as u32, self.max_y as u32, rgba.len()) {
            return None;
        }
        let image = DecodedImage { width: self.max_x as u32, height: self.max_y as u32, rgba };
        assert(Some(image@) =~= self@.finished());
        Some(image)
    }
}

proof fn lemma_pixel_position(x: int, y: int, width: int)
    requires
        0 <= x < width,
        0 <= y,
    ensures
        forall|k: int|
            0 <= k < 4 ==> {
                let at = #[trigger] ((y * width + x) * 4 + k);
                &&& at / 4 == y * width + x
                &&& at % 4 == k
            },
        (y * width + x) % width == x,
        (y * width + x) / width == y,
{
    vstd::arithmetic::div_mod::lemma_fundamental_div_mod_converse(y * width + x, width, y, x);
}

/// How many digits `bytes` start with.
pub open spec fn leading_digits(bytes: Seq<u8>) -> int
    decreases bytes.len(),
{
    if bytes.len() > 0 && is_digit(bytes[0]) {
        1 + leading_digits(bytes.drop_first())
    } else {
        0
    }
}

/// The number that `bytes` start with, at most the largest of 32 bits, and
/// how many bytes it takes.
pub open spec fn leading_number(bytes: Seq<u8>) -> (Option<int>, int) {
    let length = leading_digits(bytes);
    if length > 0 {
        (Some(min_of(digits_value(bytes.take(length), 0), u32::MAX as int)), length)
    } else {
        (None, 0)
    }
}

/// The numbers, separated by semicolons, that `bytes` start with, and how
/// many bytes they take; a semicolon that nothing follows is taken too.
pub open spec fn leading_numbers(bytes: Seq<u8>) -> (Seq<int>, int)
    decreases bytes.len(),
{
    match leading_number(bytes) {
        (Some(value), length) => if 0 < length < bytes.len() && bytes[length] == ';' as u8 {
            let (more, taken) = leading_numbers(bytes.skip(length + 1));
            (seq![value] + more, length + 1 + taken)
        } else {
            (seq![value], length)
        },
        (None, _) => (Seq::empty(), 0),
    }
}

proof fn lemma_leading_digits(bytes: Seq<u8>, length: int)
    requires
        0 <= length <= bytes.len(),
        length < bytes.len() ==> !is_digit(bytes[length]),
        forall|i: int| 0 <= i < length ==> is_digit(#[trigger] bytes[i]),
    ensures
        leading_digits(bytes) == length,
    decreases bytes.len(),
{
    if length > 0 {
        assert(is_digit(bytes[0]));
        assert forall|i: int| 0 <= i < length - 1 implies is_digit(
            #[trigger] bytes.drop_first()[i],
        ) by {
            assert(is_digit(bytes[i + 1]));
        }
        lemma_leading_digits(bytes.drop_first(), length - 1);
    }
}

proof fn lemma_digits_value_push(digits: Seq<u8>, digit: u8, start: int)
    ensures
        digits_value(digits.push(digit), start) == digits_value(digits, start) * 10 + digit as int
            - '0' as int,
    decreases digits.len(),
{
    if digits.len() == 0 {
        assert(digits.push(digit).drop_first() =~= digits);
        assert(digits_value(digits, start * 10 + digit as int - '0' as int) == start * 10
            + digit as int - '0' as int);
    } else {
        assert(digits.push(digit).drop_first() =~= digits.drop_first().push(digit));
        lemma_digits_value_push(
            digits.drop_first(),
            digit,
            start * 10 + digits[0] as int - '0' as int,
        );
    }
}

/// The number at `from`, saturating, and how many bytes it takes.
fn sixel_number(bytes: &[u8], from: usize) -> (number: (Option<u32>, usize))
    requires
        from <= bytes@.len(),
    ensures
        number.1 == leading_number(bytes@.skip(from as int)).1,
        from + number.1 <= bytes@.len(),
        match number.0 {
            Some(value) => leading_number(bytes@.skip(from as int)).0 == Some(value as int),
            None => leading_number(bytes@.skip(from as int)).0 is None,
        },
{
    let ghost tail = bytes@.skip(from as int);
    let mut value: u32 = 0;
    let mut at: usize = from;
    assert(tail.take(0) =~= Seq::empty());
    while at < bytes.len() && '0' as u8 <= bytes[at] && bytes[at] <= '9' as u8
        invariant
            from <= at <= bytes@.len(),
            tail == bytes@.skip(from as int),
            forall|i: int| 0 <= i < at - from ==> is_digit(#[trigger] tail[i]),
            digits_value(tail.take(at - from), 0) >= 0,
            value == min_of(digits_value(tail.take(at - from), 0), u32::MAX as int),
        decreases bytes@.len() - at,
    {
        let byte: u8 = bytes[at];
        proof {
            assert(byte == tail[at - from]);
            assert(tail.take(at + 1 - from) =~= tail.take(at - from).push(byte));
            lemma_digits_value_push(tail.take(at - from), byte, 0);
        }
        let shifted: u32 = match value.checked_mul(10) {
            Some(shifted) => shifted,
            None => u32::MAX,
        };
        value = shifted.saturating_add((byte - '0' as u8) as u32);
        at = at + 1;
    }
    proof {
        assert(at < bytes@.len() ==> tail[at - from] == bytes@[at as int]);
        lemma_leading_digits(tail, at - from);
    }
    if at > from {
        (Some(value), at - from)
    } else {
        (None, 0)
    }
}

/// The numbers as mathematical ones.
pub open spec fn numbers_of(values: Seq<u32>) -> Seq<int> {
    values.map_values(|value: u32| value as int)
}

/// The numbers at `from`, separated by semicolons, and how many bytes they take.
fn sixel_numbers(bytes: &[u8], from: usize) -> (numbers: (Vec<u32>, usize))
    requires
        from <= bytes@.len(),
    ensures
        numbers_of(numbers.0@) == leading_numbers(bytes@.skip(from as int)).0,
        numbers.1 == leading_numbers(bytes@.skip(from as int)).1,
        from + numbers.1 <= bytes@.len(),
{
    let ghost whole = leading_numbers(bytes@.skip(from as int));
    let mut values: Vec<u32> = Vec::new();
    let mut at: usize = from;
    assert(numbers_of(values@) + whole.0 =~= whole.0);
    loop
        invariant
            from <= at <= bytes@.len() == bytes.len(),
            whole == leading_numbers(bytes@.skip(from as int)),
            whole.0 == numbers_of(values@) + leading_numbers(bytes@.skip(at as int)).0,
            whole.1 == at - from + leading_numbers(bytes@.skip(at as int)).1,
        decreases bytes@.len() - at,
    {
        let ghost rest = bytes@.skip(at as int);
        let ghost before = values@;
        let (value, length): (Option<u32>, usize) = sixel_number(bytes, at);
        match value {
            Some(value) => {
                values.push(value);
                assert(numbers_of(values@) =~= numbers_of(before).push(value as int));
                at = at + length;
                if at < bytes.len() && bytes[at] == ';' as u8 {
                    at = at + 1;
                    proof {
                        assert(bytes@.skip(at as int) =~= rest.skip(length + 1));
                        let more = leading_numbers(bytes@.skip(at as int)).0;
                        assert(numbers_of(before) + (seq![value as int] + more) =~= numbers_of(
                            values@,
                        ) + more);
                    }
                } else {
                    assert(numbers_of(before) + seq![value as int] =~= numbers_of(values@));
                    return (values, at - from);
                }
            },
            None => {
                assert(numbers_of(values@) + Seq::<int>::empty() =~= numbers_of(values@));
                return (values, at - from);
            },
        }
    }
}

/// What a reader of Sixel data has in hand: the canvas, the colours, the
/// selected colour and the position of the next column of six pixels.
#[verifier::ext_equal]
pub struct SixelState {
    pub canvas: CanvasView,
    pub palette: Seq<[u8; 4]>,
    pub color: int,
    pub x: int,
    pub y: int,
}

/// The state before any data: a blank canvas and a white palette.
pub open spec fn sixel_start() -> SixelState {
    SixelState {
        canvas: CanvasView::blank(),
        palette: Seq::new(256, |i: int| [255u8, 255u8, 255u8, 255u8]),
        color: 0,
        x: 0,
        y: 0,
    }
}

/// The weight of one of the six bits of a sixel.
pub open spec fn bit_weight(bit: int) -> int {
    if bit == 0 {
        1
    } else if bit == 1 {
        2
    } else if bit == 2 {
        4
    } else if bit == 3 {
        8
    } else if bit == 4 {
        16
    } else {
        32
    }
}

/// The canvas with the pixels of a column painted from its first bits on.
pub open spec fn column_painted(
    canvas: CanvasView,
    x: int,
    y: int,
    bits: int,
    count: int,
    color: [u8; 4],
) -> CanvasView
    decreases count,
{
    if count <= 0 {
        canvas
    } else {
        let before = column_painted(canvas, x, y, bits, count - 1, color);
        if bits / bit_weight(count - 1) % 2 == 1 {
            before.with_pixel(x, min_of(y + count - 1, usize::MAX as int), color)
        } else {
            before
        }
    }
}

/// The state after one sixel character, drawn `times` times.
pub open spec fn sixels_drawn(state: SixelState, character: u8, times: int) -> SixelState
    decreases times,
{
    if times <= 0 {
        state
    } else {
        let before = sixels_drawn(state, character, times - 1);
        SixelState {
            canvas: column_painted(
                before.canvas,
                before.x,
                before.y,
                character as int - '?' as int,
                6,
                before.palette[before.color],
            ),
            x: min_of(before.x + 1, usize::MAX as int),
            ..before
        }
    }
}

pub open spec fn is_sixel(byte: u8) -> bool {
    '?' as u8 <= byte <= '~' as u8
}

/// A colour component given in percent.
pub open spec fn percent_byte(value: int) -> u8 {
    (min_of(value, 100) * 255 / 100) as u8
}

pub open spec fn number_at(values: Seq<int>, at: int, otherwise: int) -> int {
    if at < values.len() {
        values[at]
    } else {
        otherwise
    }
}

/// The state after the command at `index`, and where the next one stands.
pub open spec fn sixel_step(payload: Seq<u8>, index: int, state: SixelState) -> (SixelState, int) {
    let byte = payload[index];
    let after = payload.skip(index + 1);
    if byte == '"' as u8 {
        // Raster attributes announce the extent of the image.
        let (values, taken) = leading_numbers(after);
        let width = number_at(values, 2, 0);
        let state = if width > 0 {
            SixelState {
                canvas: state.canvas.ensured(width, number_at(values, 3, 0)),
                ..state
            }
        } else {
            state
        };
        (state, index + taken + 1)
    } else if byte == '#' as u8 {
        // A colour is selected and, where components follow, defined.
        let (number, taken) = leading_number(after);
        let color = match number {
            Some(number) => min_of(number, 255),
            None => 0,
        };
        let selected = SixelState { color, ..state };
        if taken < after.len() && after[taken] == ';' as u8 {
            let (values, more) = leading_numbers(after.skip(taken + 1));
            let state = if values.len() >= 4 && values[0] == 2 {
                SixelState {
                    palette: state.palette.update(
                        color,
                        [
                            percent_byte(values[1]),
                            percent_byte(values[2]),
                            percent_byte(values[3]),
                            255,
                        ],
                    ),
                    ..selected
                }
            } else {
                selected
            };
            (state, index + taken + more + 2)
        } else {
            (selected, index + taken + 1)
        }
    } else if byte == '!' as u8 {
        // The sixel that follows is repeated.
        let (number, taken) = leading_number(after);
        let times = match number {
            Some(number) => min_of(number, 4096),
            None => 1,
        };
        if taken >= after.len() {
            (state, payload.len() as int)
        } else if is_sixel(after[taken]) {
            (sixels_drawn(state, after[taken], times), index + taken + 2)
        } else {
            (state, index + taken + 2)
        }
    } else if byte == '$' as u8 {
        (SixelState { x: 0, ..state }, index + 1)
    } else if byte == '-' as u8 {
        (SixelState { x: 0, y: min_of(state.y + 6, usize::MAX as int), ..state }, index + 1)
    } else if is_sixel(byte) {
        (sixels_drawn(state, byte, 1), index + 1)
    } else {
        (state, index + 1)
    }
}

/// The state after the commands from `index` on.
pub open spec fn sixel_run(payload: Seq<u8>, index: int, state: SixelState) -> SixelState
    decreases payload.len() - index,
{
    if index >= payload.len() {
        state
    } else {
        let (next, at) = sixel_step(payload, index, state);
        if index < at <= payload.len() {
            sixel_run(payload, at, next)
        } else {
            next
        }
    }
}

/// The image that a Sixel payload draws: everything after the first `q` is
/// drawing commands.
pub open spec fn sixel_picture(payload: Seq<u8>) -> Option<Picture> {
    let start = index_of(payload, 'q' as u8);
    if start < payload.len() {
        sixel_run(payload, start + 1, sixel_start()).canvas.finished()
    } else {
        None
    }
}

fn draw_sixel(canvas: &mut SixelCanvas, x: usize, y: usize, character: u8, color: [u8; 4])
    requires
        old(canvas).wf(),
        is_sixel(character),
    ensures
        final(canvas).wf(),
        final(canvas)@ == column_painted(
            old(canvas)@,
            x as int,
            y as int,
            character as int - '?' as int,
            6,
            color,
        ),
{
    let bits: u8 = character - '?' as u8;
    let mut weight: u8 = 1;
    let mut bit: usize = 0;
    while bit < 6
        invariant
            bit <= 6,
            bit < 6 ==> weight == bit_weight(bit as int),
            bits == character - '?' as u8,
            canvas.wf(),
            canvas@ == column_painted(
                old(canvas)@,
                x as int,
                y as int,
                bits as int,
                bit as int,
                color,
            ),
        decreases 6 - bit,
    {
        if bits / weight % 2 == 1 {
            canvas.set(x, y.saturating_add(bit), color);
        }
        bit = bit + 1;
        if bit < 6 {
            weight = weight * 2;
        }
    }
}

struct SixelReader {
    canvas: SixelCanvas,
    palette: Vec<[u8; 4]>,
    color: usize,
    x: usize,
    y: usize,
}

impl View for SixelReader {
    type V = SixelState;

    closed spec fn view(&self) -> SixelState {
        SixelState {
            canvas: self.canvas@,
            palette: self.palette@,
            color: self.color as int,
            x: self.x as int,
            y: self.y as int,
        }
    }
}

impl SixelReader {
    spec fn wf(&self) -> bool {
        self.canvas.wf() && self.palette@.len() == 256 && self.color < 256
    }

    fn new() -> (reader: Self)
        ensures
            reader.wf(),
            reader@ == sixel_start(),
    {
        let mut palette: Vec<[u8; 4]> = Vec::new();
        while palette.len() < 256
            invariant
                palette@.len() <= 256,
                forall|i: int| 0 <= i < palette@.len() ==> palette@[i] == [255u8, 255u8, 255u8, 255u8],
            decreases 256 - palette@.len(),
        {
            palette.push([255u8, 255u8, 255u8, 255u8]);
        }
        let reader = Self { canvas: SixelCanvas::new(), palette, color: 0, x: 0, y: 0 };
        assert(reader@ =~= sixel_start());
        reader
    }

    fn draw(&mut self, character: u8, times: usize)
        requires
            old(self).wf(),
            is_sixel(character),
        ensures
            final(self).wf(),
            final(self)@ == sixels_drawn(old(self)@, character, times as int),
    {
        let mut drawn: usize = 0;
        while drawn < times
            invariant
                drawn <= times,
                is_sixel(character),
                self.wf(),
                self@ == sixels_drawn(old(self)@, character, drawn as int),
            decreases times - drawn,
        {
            let color: [u8; 4] = self.palette[self.color];
            draw_sixel(&mut self.canvas, self.x, self.y, character, color);
            self.x = self.x.saturating_add(1);
            drawn = drawn + 1;
            assert(self@ =~= sixels_drawn(old(self)@, character, drawn as int));
        }
    }

    /// Carries out the command at `index` and returns where the next stands.
    fn step(&mut self, payload: &[u8], index: usize) -> (next: usize)
        requires
            old(self).wf(),
            index < payload@.len(),
        ensures
            final(self).wf(),
            (final(self)@, next as int) == sixel_step(payload@, index as int, old(self)@),
            index < next <= payload@.len(),
    {
        let ghost after = payload@.skip(index + 1);
        let byte: u8 = payload[index];
        if byte == '"' as u8 {
            let (values, taken): (Vec<u32>, usize) = sixel_numbers(payload, index + 1);
            assert(values@.len() == numbers_of(values@).len());
            if values.len() > 2 && values[2] > 0 {
                let height: usize = if values.len() > 3 {
                    values[3] as usize
                } else {
                    0
                };
                self.canvas.ensure(values[2] as usize, height);
            }
            index + taken + 1
        } else if byte == '#' as u8 {
            let (number, taken): (Option<u32>, usize) = sixel_number(payload, index + 1);
            let color: usize = match number {
                Some(number) => number.min(255) as usize,
                None => 0,
            };
            self.color = color;
            let at: usize = index + 1 + taken;
            if at < payload.len() && payload[at] == ';' as u8 {
                assert(after[taken as int] == payload@[at as int]);
                assert(after.skip(taken + 1) =~= payload@.skip(at + 1));
                let (values, more): (Vec<u32>, usize) = sixel_numbers(payload, at + 1);
                assert(values@.len() == numbers_of(values@).len());
                if values.len() >= 4 && values[0] == 2 {
                    self.palette[color] = [
                        (values[1].min(100) * 255 / 100) as u8,
                        (values[2].min(100) * 255 / 100) as u8,
                        (values[3].min(100) * 255 / 100) as u8,
                        255,
                    ];
                }
                at + more + 1
            } else {
                assert(taken < after.len() ==> after[taken as int] == payload@[at as int]);
                at
            }
        } else if byte == '!' as u8 {
            let (number, taken): (Option<u32>, usize) = sixel_number(payload, index + 1);
            let times: usize = match number {
                Some(number) => number.min(4096) as usize,
                None => 1,
            };
            let at: usize = index + 1 + taken;
            if at >= payload.len() {
                return payload.len();
            }
            let character: u8 = payload[at];
            assert(after[taken as int] == character);
            if '?' as u8 <= character && character <= '~' as u8 {
                self.draw(character, times);
            }
            at + 1
        } else if byte == '$' as u8 {
            self.x = 0;
            index + 1
        } else if byte == '-' as u8 {
            self.x = 0;
            self.y = self.y.saturating_add(6);
            index + 1
        } else if '?' as u8 <= byte && byte <= '~' as u8 {
            self.draw(byte, 1);
            index + 1
        } else {
            index + 1
        }
    }
}

/// Draws a Sixel payload.
pub fn decode_sixel(payload: &[u8]) -> (image: Option<DecodedImage>)
    ensures
        picture_of(image) == sixel_picture(payload@),
{
    let start: usize = position_of(payload, 'q' as u8);
    if start == payload.len() {
        return None;
    }
    let mut reader = SixelReader::new();
    let mut index: usize = start + 1;
    while index < payload.len()
        invariant
            index <= payload@.len(),
            reader.wf(),
            sixel_run(payload@, index as int, reader@) == sixel_run(
                payload@,
                start + 1,
                sixel_start(),
            ),
        decreases payload@.len() - index,
    {
        index = reader.step(payload, index);
    }
    reader.canvas.finish()
}

proof fn lemma_column_valid(
    canvas: CanvasView,
    x: int,
    y: int,
    bits: int,
    count: int,
    color: [u8; 4],
)
    requires
        canvas.valid(),
        x >= 0,
        y >= 0,
    ensures
        column_painted(canvas, x, y, bits, count, color).valid(),
    decreases count,
{
    if count > 0 {
        lemma_column_valid(canvas, x, y, bits, count - 1, color);
    }
}

proof fn lemma_drawn_valid(state: SixelState, character: u8, times: int)
    requires
        state.canvas.valid(),
        state.x >= 0,
        state.y >= 0,
    ensures
        sixels_drawn(state, character, times).canvas.valid(),
        sixels_drawn(state, character, times).x >= 0,
        sixels_drawn(state, character, times).y >= 0,
    decreases times,
{
    if times > 0 {
        lemma_drawn_valid(state, character, times - 1);
        let before = sixels_drawn(state, character, times - 1);
        lemma_column_valid(
            before.canvas,
            before.x,
            before.y,
            character as int - '?' as int,
            6,
            before.palette[before.color],
        );
    }
}

proof fn lemma_run_valid(payload: Seq<u8>, index: int, state: SixelState)
    requires
        0 <= index,
        state.canvas.valid(),
        state.x >= 0,
        state.y >= 0,
    ensures
        sixel_run(payload, index, state).canvas.valid(),
    decreases payload.len() - index,
{
    if index < payload.len() {
        let (next, at) = sixel_step(payload, index, state);
        let byte = payload[index];
        let after = payload.skip(index + 1);
        if byte == '!' as u8 {
            let (number, taken) = leading_number(after);
            let times = match number {
                Some(number) => min_of(number, 4096),
                None => 1,
            };
            lemma_drawn_valid(state, after[taken], times);
        } else if is_sixel(byte) {
            lemma_drawn_valid(state, byte, 1);
        }
        if index < at <= payload.len() {
            lemma_run_valid(payload, at, next);
        }
    }
}

/// Whatever the payload, a drawn image is within the limits for images and
/// holds four bytes for every pixel.
pub proof fn a_drawn_image_is_within_limits(payload: Seq<u8>)
    ensures
        match sixel_picture(payload) {
            Some(picture) => image_size_ok(
                picture.width as int,
                picture.height as int,
                picture.rgba.len() as int,
            ) && picture.rgba.len() == picture.width * picture.height * 4,
            None => true,
        },
{
    let start = index_of(payload, 'q' as u8);
    if start < payload.len() {
        super::parameters::index_of_is_the_first(payload, 'q' as u8);
        lemma_run_valid(payload, start + 1, sixel_start());
        let canvas = sixel_run(payload, start + 1, sixel_start()).canvas;
        assert(canvas.max_x * canvas.max_y <= canvas.width * canvas.height) by (nonlinear_arith)
            requires
                0 <= canvas.max_x <= canvas.width,
                0 <= canvas.max_y <= canvas.height,
        ;
        assert(canvas.max_x * canvas.max_y >= 0) by (nonlinear_arith)
            requires
                0 <= canvas.max_x,
                0 <= canvas.max_y,
        ;
    }
}

/// Carrying out commands depends on what is left of the payload only.
proof fn lemma_run_of_rest(payload: Seq<u8>, from: int, index: int, state: SixelState)
    requires
        0 <= from <= payload.len(),
        0 <= index,
    ensures
        sixel_run(payload, from + index, state) == sixel_run(payload.skip(from), index, state),
    decreases payload.len() - from - index,
{
    let rest = payload.skip(from);
    if from + index < payload.len() {
        assert(rest[index] == payload[from + index]);
        assert(rest.skip(index + 1) =~= payload.skip(from + index + 1));
        let (next, at) = sixel_step(payload, from + index, state);
        let (also, there) = sixel_step(rest, index, state);
        assert(also == next && at == from + there);
        if from + index < at <= payload.len() {
            lemma_run_of_rest(payload, from, there, next);
        }
    }
}

/// One command of some bytes, and what is behind it.
proof fn lemma_one_command(data: Seq<u8>, state: SixelState, next: SixelState, taken: int)
    requires
        0 < taken <= data.len(),
        sixel_step(data, 0, state) == (next, taken),
    ensures
        sixel_run(data, 0, state) == sixel_run(data.skip(taken), 0, next),
{
    lemma_run_of_rest(data, taken, 0, next);
}

/// The graphics new line goes back to the left and down by six pixels, the
/// carriage return back to the left only, and both leave the colour and what
/// has been drawn. What is no command does nothing.
pub proof fn new_lines_and_returns_move(data: Seq<u8>, other: u8, state: SixelState)
    requires
        0 <= state.y,
        state.y + 6 <= usize::MAX,
        other < 0x3f || other > 0x7e,
        other != 0x21 && other != 0x22 && other != 0x23 && other != 0x24 && other != 0x2d,
    ensures
        sixel_run(seq![0x2du8] + data, 0, state) == sixel_run(
            data,
            0,
            SixelState { x: 0, y: state.y + 6, ..state },
        ),
        sixel_run(seq![0x24u8] + data, 0, state) == sixel_run(
            data,
            0,
            SixelState { x: 0, ..state },
        ),
        sixel_run(seq![other] + data, 0, state) == sixel_run(data, 0, state),
{
    let line = seq![0x2du8] + data;
    assert(line.skip(1) =~= data);
    lemma_one_command(line, state, SixelState { x: 0, y: state.y + 6, ..state }, 1);
    let back = seq![0x24u8] + data;
    assert(back.skip(1) =~= data);
    lemma_one_command(back, state, SixelState { x: 0, ..state }, 1);
    let nothing = seq![other] + data;
    assert(nothing.skip(1) =~= data);
    lemma_one_command(nothing, state, state, 1);
}

/// A row of a sixel is set: the lowest of the six bits above the first sixel
/// character stands for the highest row.
pub open spec fn row_is_set(sixel: u8, row: int) -> bool {
    let bits = sixel - 0x3f;
    ||| row == 0 && bits % 2 == 1
    ||| row == 1 && bits / 2 % 2 == 1
    ||| row == 2 && bits / 4 % 2 == 1
    ||| row == 3 && bits / 8 % 2 == 1
    ||| row == 4 && bits / 16 % 2 == 1
    ||| row == 5 && bits / 32 % 2 == 1
}

/// All of the bytes are sixels.
pub open spec fn all_sixels(band: Seq<u8>) -> bool {
    forall|i: int| 0 <= i < band.len() ==> 0x3f <= #[trigger] band[i] <= 0x7e
}

/// The canvas can take every pixel of an extent: it has room for all of them,
/// or the extent is small enough that it grows as far as it must.
pub open spec fn takes(canvas: CanvasView, width: int, height: int) -> bool {
    &&& canvas.valid()
    &&& width <= 8192 && height <= 8192
    &&& {
        ||| width <= canvas.width && height <= canvas.height
        ||| width <= 38 && height <= 38 && canvas.width == 0 && canvas.height == 0
        ||| width <= 38 && height <= 38 && exists|scale: int|
            1 <= scale < 76 && scale <= canvas.width <= #[trigger] (scale * 38) && scale
                <= canvas.height <= scale * 38
    }
}

/// The extent that has been painted is no larger than it must be.
pub open spec fn is_tight(canvas: CanvasView) -> bool {
    &&& canvas.max_x > 0 <==> canvas.max_y > 0
    &&& canvas.max_x > 0 ==> exists|y: int|
        #[trigger] canvas.painted.dom().contains((canvas.max_x - 1, y))
    &&& canvas.max_y > 0 ==> exists|x: int|
        #[trigger] canvas.painted.dom().contains((x, canvas.max_y - 1))
}

/// The colour of a pixel that was painted.
pub open spec fn shade(canvas: CanvasView, x: int, y: int) -> Option<[u8; 4]> {
    if canvas.painted.dom().contains((x, y)) {
        Some(canvas.painted[(x, y)])
    } else {
        None
    }
}

proof fn lemma_pixel_taken(
    canvas: CanvasView,
    x: int,
    y: int,
    color: [u8; 4],
    width: int,
    height: int,
)
    requires
        takes(canvas, width, height),
        0 <= x < width,
        0 <= y < height,
    ensures
        ({
            let after = canvas.with_pixel(x, y, color);
            &&& takes(after, width, height)
            &&& after.painted == canvas.painted.insert((x, y), color)
            &&& is_tight(canvas) ==> is_tight(after)
        }),
{
    let after = canvas.with_pixel(x, y, color);
    if width <= canvas.width && height <= canvas.height {
    } else if canvas.width == 0 && canvas.height == 0 {
        let scale: int = 1;
        assert((x + 1) * (y + 1) <= MAX_SIXEL_PIXELS) by (nonlinear_arith)
            requires
                0 <= x < 38,
                0 <= y < 38,
                MAX_SIXEL_PIXELS == 8 * 1024 * 1024,
        ;
        assert(scale <= after.width <= scale * 38 && scale <= after.height <= scale * 38);
    } else {
        let scale = choose|scale: int|
            1 <= scale < 76 && scale <= canvas.width <= #[trigger] (scale * 38) && scale
                <= canvas.height <= scale * 38;
        if x + 1 > canvas.width || y + 1 > canvas.height {
            let twice = scale * 2;
            let wide = grown(canvas.width, x + 1);
            let high = grown(canvas.height, y + 1);
            assert(twice <= wide <= twice * 38 && twice <= high <= twice * 38 && twice < 76);
            assert(wide * high <= MAX_SIXEL_PIXELS) by (nonlinear_arith)
                requires
                    0 <= wide <= 2850,
                    0 <= high <= 2850,
                    MAX_SIXEL_PIXELS == 8 * 1024 * 1024,
            ;
            assert(twice <= after.width <= twice * 38);
        } else {
            assert(scale <= after.width <= scale * 38);
        }
    }
    if is_tight(canvas) {
        assert(after.painted.dom().contains((x, y)));
        if canvas.max_x > x + 1 {
            let other = choose|other: int|
                #[trigger] canvas.painted.dom().contains((canvas.max_x - 1, other));
            assert(after.painted.dom().contains((after.max_x - 1, other)));
        } else {
            assert(after.painted.dom().contains((after.max_x - 1, y)));
        }
        if canvas.max_y > y + 1 {
            let other = choose|other: int|
                #[trigger] canvas.painted.dom().contains((other, canvas.max_y - 1));
            assert(after.painted.dom().contains((other, after.max_y - 1)));
        } else {
            assert(after.painted.dom().contains((x, after.max_y - 1)));
        }
    }
}

proof fn lemma_column(
    canvas: CanvasView,
    x: int,
    y: int,
    sixel: u8,
    count: int,
    color: [u8; 4],
    width: int,
    height: int,
)
    requires
        takes(canvas, width, height),
        0x3f <= sixel <= 0x7e,
        0 <= count <= 6,
        0 <= x < width,
        0 <= y,
        y + 6 <= height,
    ensures
        ({
            let after = column_painted(canvas, x, y, sixel - 0x3f, count, color);
            &&& takes(after, width, height)
            &&& is_tight(canvas) ==> is_tight(after)
            &&& forall|px: int, py: int| #[trigger]
                shade(after, px, py) == if px == x && y <= py < y + count && row_is_set(
                    sixel,
                    py - y,
                ) {
                    Some(color)
                } else {
                    shade(canvas, px, py)
                }
        }),
    decreases count,
{
    if count > 0 {
        lemma_column(canvas, x, y, sixel, count - 1, color, width, height);
        let before = column_painted(canvas, x, y, sixel - 0x3f, count - 1, color);
        lemma_pixel_taken(before, x, y + count - 1, color, width, height);
        let bits = sixel - 0x3f;
        assert(row_is_set(sixel, count - 1) == (bits / bit_weight(count - 1) % 2 == 1));
        let after = column_painted(canvas, x, y, bits, count, color);
        assert forall|px: int, py: int| #[trigger]
            shade(after, px, py) == if px == x && y <= py < y + count && row_is_set(
                sixel,
                py - y,
            ) {
                Some(color)
            } else {
                shade(canvas, px, py)
            } by {
            assert(shade(before, px, py) == if px == x && y <= py < y + count - 1 && row_is_set(
                sixel,
                py - y,
            ) {
                Some(color)
            } else {
                shade(canvas, px, py)
            });
        }
    }
}

/// The state behind a band of sixels: further to the right by as many columns,
/// and with the set rows of every sixel painted in the selected colour, and
/// nothing else.
pub open spec fn band_is_drawn(state: SixelState, band: Seq<u8>, after: SixelState) -> bool {
    &&& after.x == state.x + band.len()
    &&& after.y == state.y
    &&& after.color == state.color
    &&& after.palette == state.palette
    &&& forall|px: int, py: int| #[trigger]
        shade(after.canvas, px, py) == if state.x <= px < state.x + band.len() && state.y <= py
            < state.y + 6 && row_is_set(band[px - state.x], py - state.y) {
            Some(state.palette[state.color])
        } else {
            shade(state.canvas, px, py)
        }
}

/// A band of sixels paints, column by column to the right, the rows that are
/// set, in the selected colour.
pub proof fn a_band_is_painted_column_by_column(
    band: Seq<u8>,
    data: Seq<u8>,
    state: SixelState,
    width: int,
    height: int,
) -> (after: SixelState)
    requires
        all_sixels(band),
        0 <= state.x,
        0 <= state.y,
        state.x + band.len() <= width,
        state.y + 6 <= height,
        takes(state.canvas, width, height),
    ensures
        sixel_run(band + data, 0, state) == sixel_run(data, 0, after),
        band_is_drawn(state, band, after),
        takes(after.canvas, width, height),
        is_tight(state.canvas) ==> is_tight(after.canvas),
    decreases band.len(),
{
    if band.len() == 0 {
        assert(band + data =~= data);
        state
    } else {
        let sixel = band[0];
        assert(0x3f <= sixel <= 0x7e);
        let rest = band.drop_first();
        let whole = band + data;
        assert(whole[0] == sixel);
        assert(whole.skip(1) =~= rest + data);
        let next = sixels_drawn(state, sixel, 1);
        reveal_with_fuel(sixels_drawn, 2);
        lemma_column(
            state.canvas,
            state.x,
            state.y,
            sixel,
            6,
            state.palette[state.color],
            width,
            height,
        );
        lemma_one_command(whole, state, next, 1);
        assert forall|i: int| 0 <= i < rest.len() implies 0x3f <= #[trigger] rest[i] <= 0x7e by {
            assert(rest[i] == band[i + 1]);
        }
        let after = a_band_is_painted_column_by_column(rest, data, next, width, height);
        assert forall|px: int, py: int| #[trigger]
            shade(after.canvas, px, py) == if state.x <= px < state.x + band.len() && state.y <= py
                < state.y + 6 && row_is_set(band[px - state.x], py - state.y) {
                Some(state.palette[state.color])
            } else {
                shade(state.canvas, px, py)
            } by {
            assert(shade(next.canvas, px, py) == if px == state.x && state.y <= py < state.y + 6
                && row_is_set(sixel, py - state.y) {
                Some(state.palette[state.color])
            } else {
                shade(state.canvas, px, py)
            });
            if state.x < px < state.x + band.len() {
                assert(rest[px - next.x] == band[px - state.x]);
            }
        }
        after
    }
}

/// Bands, with a graphics new line between each and the next one.
pub open spec fn joined(bands: Seq<Seq<u8>>) -> Seq<u8>
    decreases bands.len(),
{
    if bands.len() == 0 {
        Seq::empty()
    } else if bands.len() == 1 {
        bands[0]
    } else {
        bands[0] + (seq![0x2du8] + joined(bands.drop_first()))
    }
}

/// The pixel at a column and a row is set: the row lies in the band that is a
/// sixth as far down, and the column counts the sixels of it.
pub open spec fn pixel_is_set(bands: Seq<Seq<u8>>, x: int, y: int) -> bool {
    &&& 0 <= x
    &&& 0 <= y
    &&& y / 6 < bands.len()
    &&& x < bands[y / 6].len()
    &&& row_is_set(bands[y / 6][x], y % 6)
}

/// Bands of sixels, one below the other.
pub open spec fn are_bands(bands: Seq<Seq<u8>>, width: int) -> bool {
    forall|k: int|
        0 <= k < bands.len() ==> all_sixels(#[trigger] bands[k]) && bands[k].len() <= width
}

/// Bands are painted one below the other, six rows each, whatever was drawn
/// before: exactly the pixels that are set are painted, in the selected colour.
pub proof fn bands_are_painted_below_each_other(
    bands: Seq<Seq<u8>>,
    state: SixelState,
    width: int,
    height: int,
) -> (after: SixelState)
    requires
        are_bands(bands, width),
        state.x == 0,
        0 <= state.y,
        state.y + 6 * bands.len() <= height,
        takes(state.canvas, width, height),
    ensures
        sixel_run(joined(bands), 0, state) == after,
        takes(after.canvas, width, height),
        is_tight(state.canvas) ==> is_tight(after.canvas),
        forall|px: int, py: int| #[trigger]
            shade(after.canvas, px, py) == if pixel_is_set(bands, px, py - state.y) {
                Some(state.palette[state.color])
            } else {
                shade(state.canvas, px, py)
            },
    decreases bands.len(),
{
    if bands.len() == 0 {
        state
    } else {
        let band = bands[0];
        assert(all_sixels(band) && band.len() <= width);
        let none = Seq::<u8>::empty();
        if bands.len() == 1 {
            assert(band + none =~= band);
            let after = a_band_is_painted_column_by_column(band, none, state, width, height);
            assert forall|px: int, py: int| #[trigger]
                shade(after.canvas, px, py) == if pixel_is_set(bands, px, py - state.y) {
                    Some(state.palette[state.color])
                } else {
                    shade(state.canvas, px, py)
                } by {
                lemma_first_band(bands, px, py - state.y);
            }
            after
        } else {
            let rest = bands.drop_first();
            let tail = seq![0x2du8] + joined(rest);
            let drawn = a_band_is_painted_column_by_column(band, tail, state, width, height);
            new_lines_and_returns_move(joined(rest), 0, drawn);
            let next = SixelState { x: 0, y: drawn.y + 6, ..drawn };
            assert forall|k: int| 0 <= k < rest.len() implies all_sixels(#[trigger] rest[k])
                && rest[k].len() <= width by {
                assert(rest[k] == bands[k + 1]);
                assert(all_sixels(bands[k + 1]) && bands[k + 1].len() <= width);
            }
            let after = bands_are_painted_below_each_other(rest, next, width, height);
            assert forall|px: int, py: int| #[trigger]
                shade(after.canvas, px, py) == if pixel_is_set(bands, px, py - state.y) {
                    Some(state.palette[state.color])
                } else {
                    shade(state.canvas, px, py)
                } by {
                lemma_first_band(bands, px, py - state.y);
                assert(shade(drawn.canvas, px, py) == if 0 <= px < band.len() && state.y <= py
                    < state.y + 6 && row_is_set(band[px], py - state.y) {
                    Some(state.palette[state.color])
                } else {
                    shade(state.canvas, px, py)
                });
            }
            after
        }
    }
}

proof fn lemma_first_band(bands: Seq<Seq<u8>>, x: int, y: int)
    requires
        bands.len() > 0,
    ensures
        pixel_is_set(bands, x, y) == ((0 <= x < bands[0].len() && 0 <= y < 6 && row_is_set(
            bands[0][x],
            y,
        )) || pixel_is_set(bands.drop_first(), x, y - 6)),
{
    if 0 <= y < 6 {
        assert(y / 6 == 0 && y % 6 == y);
    } else if y >= 6 {
        assert((y - 6) / 6 == y / 6 - 1 && (y - 6) % 6 == y % 6);
        if y / 6 < bands.len() {
            assert(bands.drop_first()[(y - 6) / 6] == bands[y / 6]);
        }
    }
}

/// The picture that bands of sixels draw on a blank canvas: every pixel that is
/// set is white, every other one is transparent, and the picture is just large
/// enough for those that are set. Where none is set there is no picture. Such a
/// payload announces no extent, so that the picture is small.
pub proof fn a_picture_shows_its_bands(front: Seq<u8>, bands: Seq<Seq<u8>>, width: int)
    requires
        forall|i: int| 0 <= i < front.len() ==> #[trigger] front[i] != 0x71,
        are_bands(bands, width),
        0 <= width <= 38,
        bands.len() <= 6,
    ensures
        match sixel_picture(front + seq![0x71u8] + joined(bands)) {
            Some(picture) => {
                &&& picture.rgba.len() == picture.width * picture.height * 4
                &&& forall|x: int, y: int| #[trigger]
                    pixel_is_set(bands, x, y) ==> x < picture.width && y < picture.height
                &&& exists|y: int| #[trigger] pixel_is_set(bands, picture.width - 1, y)
                &&& exists|x: int| #[trigger] pixel_is_set(bands, x, picture.height - 1)
                &&& forall|x: int, y: int, channel: int|
                    0 <= x < picture.width && 0 <= y < picture.height && 0 <= channel < 4
                        ==> #[trigger] picture.rgba[(y * picture.width + x) * 4 + channel] == if (
                    pixel_is_set(bands, x, y)) {
                        255u8
                    } else {
                        0u8
                    }
            },
            None => forall|x: int, y: int| !#[trigger] pixel_is_set(bands, x, y),
        },
{
    let payload = front + seq![0x71u8] + joined(bands);
    let start = front.len() as int;
    assert(payload[start] == 0x71);
    assert forall|i: int| 0 <= i < start implies #[trigger] payload[i] != 0x71 by {
        assert(payload[i] == front[i]);
    }
    super::parameters::index_of_is_the_first(payload, 'q' as u8);
    assert(index_of(payload, 'q' as u8) == start);
    assert(payload.skip(start + 1) =~= joined(bands));
    lemma_run_of_rest(payload, start + 1, 0, sixel_start());
    let after = bands_are_painted_below_each_other(bands, sixel_start(), width, 38);
    let canvas = after.canvas;
    assert forall|x: int, y: int| canvas.painted.dom().contains((x, y)) == #[trigger] pixel_is_set(
        bands,
        x,
        y,
    ) by {
        assert((shade(canvas, x, y) is Some) == pixel_is_set(bands, x, y - 0));
    }
    match sixel_picture(payload) {
        Some(picture) => {
            let row = choose|y: int| #[trigger] canvas.painted.dom().contains((canvas.max_x - 1, y));
            assert(pixel_is_set(bands, picture.width - 1, row));
            let column = choose|x: int|
                #[trigger] canvas.painted.dom().contains((x, canvas.max_y - 1));
            assert(pixel_is_set(bands, column, picture.height - 1));
            a_drawn_image_is_within_limits(payload);
            assert forall|x: int, y: int, channel: int|
                0 <= x < picture.width && 0 <= y < picture.height && 0 <= channel
                    < 4 implies #[trigger] picture.rgba[(y * picture.width + x) * 4 + channel]
                == if pixel_is_set(bands, x, y) {
                255u8
            } else {
                0u8
            } by {
                let at = (y * picture.width + x) * 4 + channel;
                lemma_pixel_position(x, y, picture.width as int);
                assert(at / 4 == y * picture.width + x && at % 4 == channel);
                assert(0 <= y * picture.width + x < picture.width * picture.height)
                    by (nonlinear_arith)
                    requires
                        0 <= x < picture.width,
                        0 <= y < picture.height,
                ;
                assert(picture.rgba[at] == canvas.byte_at(at));
                assert(shade(canvas, x, y) == if pixel_is_set(bands, x, y - 0) {
                    Some([255u8, 255u8, 255u8, 255u8])
                } else {
                    None
                });
            }
        },
        None => {
            assert forall|x: int, y: int| !#[trigger] pixel_is_set(bands, x, y) by {
                assert(canvas.painted.dom().contains((x, y)) == pixel_is_set(bands, x, y));
            }
        },
    }
}

/// A run of decimal digits.
pub open spec fn are_digits(digits: Seq<u8>) -> bool {
    digits.len() > 0 && forall|i: int| 0 <= i < digits.len() ==> 0x30 <= #[trigger] digits[i] <= 0x39
}

/// Numbers, with a semicolon between each and the next one.
pub open spec fn listed(numbers: Seq<Seq<u8>>) -> Seq<u8>
    decreases numbers.len(),
{
    if numbers.len() == 0 {
        Seq::empty()
    } else if numbers.len() == 1 {
        numbers[0]
    } else {
        numbers[0] + (seq![0x3bu8] + listed(numbers.drop_first()))
    }
}

proof fn lemma_number_read(digits: Seq<u8>, rest: Seq<u8>)
    requires
        are_digits(digits),
        rest.len() > 0 ==> !is_digit(rest[0]),
    ensures
        leading_number(digits + rest) == (
            Some(min_of(digits_value(digits, 0), u32::MAX as int)),
            digits.len() as int,
        ),
{
    let bytes = digits + rest;
    assert forall|i: int| 0 <= i < digits.len() implies is_digit(#[trigger] bytes[i]) by {
        assert(bytes[i] == digits[i]);
    }
    lemma_leading_digits(bytes, digits.len() as int);
    assert(bytes.take(digits.len() as int) =~= digits);
}

proof fn lemma_numbers_read(numbers: Seq<Seq<u8>>, rest: Seq<u8>)
    requires
        numbers.len() > 0,
        forall|i: int| 0 <= i < numbers.len() ==> are_digits(#[trigger] numbers[i]),
        rest.len() > 0 ==> !is_digit(rest[0]) && rest[0] != 0x3b,
    ensures
        leading_numbers(listed(numbers) + rest).1 == listed(numbers).len(),
        leading_numbers(listed(numbers) + rest).0.len() == numbers.len(),
        forall|i: int|
            0 <= i < numbers.len() ==> #[trigger] leading_numbers(listed(numbers) + rest).0[i]
                == min_of(digits_value(numbers[i], 0), u32::MAX as int),
    decreases numbers.len(),
{
    let first = numbers[0];
    assert(are_digits(first));
    let bytes = listed(numbers) + rest;
    if numbers.len() == 1 {
        lemma_number_read(first, rest);
        if rest.len() > 0 {
            assert(bytes[first.len() as int] == rest[0]);
        }
    } else {
        let more = numbers.drop_first();
        let tail = seq![0x3bu8] + listed(more) + rest;
        assert(bytes =~= first + tail);
        lemma_number_read(first, tail);
        assert(bytes[first.len() as int] == 0x3b);
        assert(bytes.skip(first.len() as int + 1) =~= listed(more) + rest);
        assert forall|i: int| 0 <= i < more.len() implies are_digits(#[trigger] more[i]) by {
            assert(more[i] == numbers[i + 1]);
        }
        lemma_numbers_read(more, rest);
        assert forall|i: int| 0 <= i < numbers.len() implies #[trigger] leading_numbers(bytes).0[i]
            == min_of(digits_value(numbers[i], 0), u32::MAX as int) by {
            if i > 0 {
                assert(leading_numbers(bytes).0[i] == leading_numbers(listed(more) + rest).0[i - 1]);
                assert(numbers[i] == more[i - 1]);
            }
        }
    }
}

/// A colour is selected by its number, and defined by three shares of a
/// hundred: red, green and blue in this order. Nothing is drawn by it.
pub proof fn colors_are_selected_and_defined(
    number: Seq<u8>,
    red: Seq<u8>,
    green: Seq<u8>,
    blue: Seq<u8>,
    data: Seq<u8>,
    state: SixelState,
)
    requires
        are_digits(number) && are_digits(red) && are_digits(green) && are_digits(blue),
        0 <= digits_value(number, 0) <= 255,
        0 <= digits_value(red, 0) <= 100,
        0 <= digits_value(green, 0) <= 100,
        0 <= digits_value(blue, 0) <= 100,
        data.len() > 0 ==> !(0x30 <= data[0] <= 0x39) && data[0] != 0x3b,
    ensures
        sixel_run(seq![0x23u8] + number + data, 0, state) == sixel_run(
            data,
            0,
            SixelState { color: digits_value(number, 0), ..state },
        ),
        sixel_run(
            seq![0x23u8] + number + seq![0x3bu8] + listed(seq![seq![0x32u8], red, green, blue])
                + data,
            0,
            state,
        ) == sixel_run(
            data,
            0,
            SixelState {
                color: digits_value(number, 0),
                palette: state.palette.update(
                    digits_value(number, 0),
                    [
                        (digits_value(red, 0) * 255 / 100) as u8,
                        (digits_value(green, 0) * 255 / 100) as u8,
                        (digits_value(blue, 0) * 255 / 100) as u8,
                        255u8,
                    ],
                ),
                ..state
            },
        ),
{
    let color = digits_value(number, 0);
    let bare = seq![0x23u8] + number + data;
    assert(bare.skip(1) =~= number + data);
    lemma_number_read(number, data);
    if data.len() > 0 {
        assert((number + data)[number.len() as int] == data[0]);
    }
    assert(bare.skip(1 + number.len() as int) =~= data);
    lemma_one_command(bare, state, SixelState { color, ..state }, 1 + number.len() as int);
    let shares = seq![seq![0x32u8], red, green, blue];
    let list = listed(shares);
    let whole = seq![0x23u8] + number + seq![0x3bu8] + list + data;
    let after = whole.skip(1);
    let tail = seq![0x3bu8] + list + data;
    assert(after =~= number + tail);
    lemma_number_read(number, tail);
    assert(after[number.len() as int] == 0x3b);
    assert(after.skip(number.len() as int + 1) =~= list + data);
    assert(digits_value(seq![0x32u8], 0) == 2) by {
        reveal_with_fuel(digits_value, 3);
    }
    assert forall|i: int| 0 <= i < shares.len() implies are_digits(#[trigger] shares[i]) by {
        assert(shares[0] == seq![0x32u8]);
    }
    lemma_numbers_read(shares, data);
    let values = leading_numbers(list + data).0;
    assert(values[0] == min_of(digits_value(shares[0], 0), u32::MAX as int));
    assert(values[1] == min_of(digits_value(shares[1], 0), u32::MAX as int));
    assert(values[2] == min_of(digits_value(shares[2], 0), u32::MAX as int));
    assert(values[3] == min_of(digits_value(shares[3], 0), u32::MAX as int));
    let next = SixelState {
        color,
        palette: state.palette.update(
            color,
            [
                (digits_value(red, 0) * 255 / 100) as u8,
                (digits_value(green, 0) * 255 / 100) as u8,
                (digits_value(blue, 0) * 255 / 100) as u8,
                255u8,
            ],
        ),
        ..state
    };
    let taken = 2 + number.len() + list.len();
    assert(whole.skip(taken as int) =~= data);
    lemma_one_command(whole, state, next, taken as int);
}

proof fn lemma_drawn_from_front(state: SixelState, sixel: u8, times: int)
    requires
        times > 0,
    ensures
        sixels_drawn(state, sixel, times) == sixels_drawn(
            sixels_drawn(state, sixel, 1),
            sixel,
            times - 1,
        ),
    decreases times,
{
    reveal_with_fuel(sixels_drawn, 2);
    if times > 1 {
        lemma_drawn_from_front(state, sixel, times - 1);
    }
}

proof fn lemma_copies_drawn(sixel: u8, times: int, data: Seq<u8>, state: SixelState)
    requires
        0x3f <= sixel <= 0x7e,
        times >= 0,
    ensures
        sixel_run(Seq::new(times as nat, |i: int| sixel) + data, 0, state) == sixel_run(
            data,
            0,
            sixels_drawn(state, sixel, times),
        ),
    decreases times,
{
    let copies = Seq::new(times as nat, |i: int| sixel);
    if times == 0 {
        assert(copies + data =~= data);
    } else {
        let whole = copies + data;
        let fewer = Seq::new((times - 1) as nat, |i: int| sixel);
        assert(whole[0] == sixel);
        assert(whole.skip(1) =~= fewer + data);
        lemma_one_command(whole, state, sixels_drawn(state, sixel, 1), 1);
        lemma_copies_drawn(sixel, times - 1, data, sixels_drawn(state, sixel, 1));
        lemma_drawn_from_front(state, sixel, times);
    }
}

/// A repeated sixel is as many of it as the number says.
pub proof fn a_repeat_stands_for_copies(
    count: Seq<u8>,
    sixel: u8,
    data: Seq<u8>,
    state: SixelState,
)
    requires
        are_digits(count),
        0 <= digits_value(count, 0) <= 4096,
        0x3f <= sixel <= 0x7e,
    ensures
        sixel_run(seq![0x21u8] + count + seq![sixel] + data, 0, state) == sixel_run(
            Seq::new(digits_value(count, 0) as nat, |i: int| sixel) + data,
            0,
            state,
        ),
{
    let times = digits_value(count, 0);
    let whole = seq![0x21u8] + count + seq![sixel] + data;
    let tail = seq![sixel] + data;
    assert(whole.skip(1) =~= count + tail);
    lemma_number_read(count, tail);
    assert(whole.skip(1)[count.len() as int] == sixel);
    assert(whole.skip(2 + count.len() as int) =~= data);
    lemma_one_command(whole, state, sixels_drawn(state, sixel, times), 2 + count.len() as int);
    lemma_copies_drawn(sixel, times, data, state);
}

/// An announced extent makes room for every pixel of it and draws nothing.
pub proof fn an_announced_extent_is_taken(
    across: Seq<u8>,
    down: Seq<u8>,
    width: Seq<u8>,
    height: Seq<u8>,
    data: Seq<u8>,
    state: SixelState,
) -> (after: SixelState)
    requires
        are_digits(across) && are_digits(down) && are_digits(width) && are_digits(height),
        0 < digits_value(width, 0) <= 8192,
        0 < digits_value(height, 0) <= 8192,
        digits_value(width, 0) * digits_value(height, 0) <= 8 * 1024 * 1024,
        data.len() > 0 ==> !(0x30 <= data[0] <= 0x39) && data[0] != 0x3b,
        state.canvas == CanvasView::blank(),
    ensures
        sixel_run(
            seq![0x22u8] + listed(seq![across, down, width, height]) + data,
            0,
            state,
        ) == sixel_run(data, 0, after),
        after == (SixelState { canvas: after.canvas, ..state }),
        after.canvas.painted == state.canvas.painted,
        after.canvas.max_x == 0 && after.canvas.max_y == 0,
        takes(after.canvas, digits_value(width, 0), digits_value(height, 0)),
        is_tight(after.canvas),
{
    let numbers = seq![across, down, width, height];
    let list = listed(numbers);
    let whole = seq![0x22u8] + list + data;
    assert(whole.skip(1) =~= list + data);
    lemma_numbers_read(numbers, data);
    let values = leading_numbers(list + data).0;
    assert(values[2] == min_of(digits_value(numbers[2], 0), u32::MAX as int));
    assert(values[3] == min_of(digits_value(numbers[3], 0), u32::MAX as int));
    let after = SixelState {
        canvas: state.canvas.ensured(digits_value(width, 0), digits_value(height, 0)),
        ..state
    };
    assert(whole.skip(1 + list.len() as int) =~= data);
    lemma_one_command(whole, state, after, 1 + list.len() as int);
    after
}

} // verus!

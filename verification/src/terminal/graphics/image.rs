//! Decoded images and where they are placed.
use vstd::prelude::*;

use super::parameters::{parameter_number, parameter_u32};
use crate::num::{max_of, min_of};

verus! {

pub const MAX_IMAGE_BYTES: usize = 32 * 1024 * 1024;

pub const MAX_IMAGE_PIXELS: u64 = 16 * 1024 * 1024;

pub const MAX_IMAGE_DIMENSION: u32 = 8 * 1024;

/// An image as rows of RGBA pixels.
#[derive(Debug)]
pub struct DecodedImage {
    pub width: u32,
    pub height: u32,
    pub rgba: Vec<u8>,
}

/// An image by its dimensions and bytes.
#[verifier::ext_equal]
pub struct Picture {
    pub width: u32,
    pub height: u32,
    pub rgba: Seq<u8>,
}

impl View for DecodedImage {
    type V = Picture;

    open spec fn view(&self) -> Picture {
        Picture { width: self.width, height: self.height, rgba: self.rgba@ }
    }
}

/// The picture of an optional image.
pub open spec fn picture_of(image: Option<DecodedImage>) -> Option<Picture> {
    match image {
        Some(image) => Some(image@),
        None => None,
    }
}

/// The dimensions and the byte count are within the limits for images.
pub open spec fn image_size_ok(width: int, height: int, bytes: int) -> bool {
    &&& 0 < width <= MAX_IMAGE_DIMENSION
    &&& 0 < height <= MAX_IMAGE_DIMENSION
    &&& width * height <= MAX_IMAGE_PIXELS
    &&& bytes <= MAX_IMAGE_BYTES
}

pub fn validate_image_size(width: u32, height: u32, bytes: usize) -> (valid: bool)
    ensures
        valid == image_size_ok(width as int, height as int, bytes as int),
{
    if !(width > 0 && height > 0 && width <= MAX_IMAGE_DIMENSION && height <= MAX_IMAGE_DIMENSION) {
        return false;
    }
    assert(width * height <= 8192 * 8192) by (nonlinear_arith)
        requires
            width <= 8192,
            height <= 8192,
    ;
    width as u64 * height as u64 <= MAX_IMAGE_PIXELS && bytes <= MAX_IMAGE_BYTES
}

/// The pixels of an encoded image: its width, its height and its rows of RGBA
/// bytes, or `None` where it is not an image of a known format.
pub uninterp spec fn decoded_pixels(data: Seq<u8>) -> Option<(u32, u32, Seq<u8>)>;

/// `image::load_from_memory` guesses the format of `data` and decodes it;
/// `to_rgba8` converts the result to rows of RGBA bytes.  What they give is
/// named [`decoded_pixels`]: it depends on `data` alone.
#[verifier::external_body]
fn load_pixels(data: &[u8]) -> (pixels: Option<(u32, u32, Vec<u8>)>)
    ensures
        match pixels {
            Some((width, height, rgba)) => decoded_pixels(data@) == Some((width, height, rgba@)),
            None => decoded_pixels(data@) is None,
        },
{
    match image::load_from_memory(data) {
        Ok(decoded) => {
            let rgba = decoded.to_rgba8();
            let (width, height) = rgba.dimensions();
            Some((width, height, rgba.into_raw()))
        },
        Err(_) => None,
    }
}

/// Decoded pixels as an image, where they are within the limits.
pub open spec fn accepted_picture(pixels: Option<(u32, u32, Seq<u8>)>) -> Option<Picture> {
    match pixels {
        Some((width, height, rgba)) => if image_size_ok(
            width as int,
            height as int,
            rgba.len() as int,
        ) {
            Some(Picture { width, height, rgba })
        } else {
            None
        },
        None => None,
    }
}

/// The image that encoded data stands for.
pub open spec fn encoded_picture(data: Seq<u8>) -> Option<Picture> {
    if data.len() > MAX_IMAGE_BYTES {
        None
    } else {
        accepted_picture(decoded_pixels(data))
    }
}

/// Takes decoded pixels as an image, where they are within the limits.
pub fn accept_pixels(pixels: Option<(u32, u32, Vec<u8>)>) -> (image: Option<DecodedImage>)
    ensures
        picture_of(image) == accepted_picture(
            match pixels {
                Some((width, height, rgba)) => Some((width, height, rgba@)),
                None => None,
            },
        ),
{
    match pixels {
        Some((width, height, rgba)) => if validate_image_size(width, height, rgba.len()) {
            Some(DecodedImage { width, height, rgba })
        } else {
            None
        },
        None => None,
    }
}

/// Decodes an image of any known format.
pub fn decode_encoded_image(data: &[u8]) -> (image: Option<DecodedImage>)
    ensures
        picture_of(image) == encoded_picture(data@),
{
    if data.len() > MAX_IMAGE_BYTES {
        return None;
    }
    accept_pixels(load_pixels(data))
}

/// One byte of the RGBA form of raw pixels with three or four channels.
pub open spec fn raw_rgba_byte(data: Seq<u8>, channels: int, at: int) -> u8 {
    if at % 4 < channels {
        data[at / 4 * channels + at % 4]
    } else {
        255
    }
}

/// The image that raw pixels stand for: opaque where there are three channels.
pub open spec fn raw_picture(data: Seq<u8>, width: u32, height: u32, channels: int) -> Option<
    Picture,
> {
    let pixels = width * height;
    if image_size_ok(width as int, height as int, pixels * channels) && data.len() >= pixels
        * channels {
        Some(
            Picture {
                width,
                height,
                rgba: Seq::new((pixels * 4) as nat, |at: int| raw_rgba_byte(data, channels, at)),
            },
        )
    } else {
        None
    }
}

/// Reads raw pixels of three or four channels.
pub fn decode_raw_image(data: &[u8], width: u32, height: u32, channels: usize) -> (image: Option<
    DecodedImage,
>)
    requires
        channels == 3 || channels == 4,
    ensures
        picture_of(image) == raw_picture(data@, width, height, channels as int),
{
    let pixels: usize = match (width as usize).checked_mul(height as usize) {
        Some(pixels) => pixels,
        None => {
            proof {
                assert(image_size_ok(width as int, height as int, width * height * channels)
                    ==> width * height <= 16 * 1024 * 1024);
            }
            return None;
        },
    };
    let expected: usize = match pixels.checked_mul(channels) {
        Some(expected) => expected,
        None => {
            return None;
        },
    };
    if !validate_image_size(width, height, expected) {
        return None;
    }
    if data.len() < expected {
        return None;
    }
    let mut rgba: Vec<u8> = Vec::new();
    let mut pixel: usize = 0;
    let mut at: usize = 0;
    while pixel < pixels
        invariant
            pixel <= pixels,
            pixels * channels == expected,
            expected <= data@.len(),
            channels == 3 || channels == 4,
            at == pixel * channels,
            rgba@.len() == pixel * 4,
            forall|i: int|
                0 <= i < rgba@.len() ==> #[trigger] rgba@[i] == raw_rgba_byte(
                    data@,
                    channels as int,
                    i,
                ),
        decreases pixels - pixel,
    {
        assert(at + channels <= expected) by (nonlinear_arith)
            requires
                at == pixel * channels,
                pixel < pixels,
                pixels * channels == expected,
        ;
        rgba.push(data[at]);
        rgba.push(data[at + 1]);
        rgba.push(data[at + 2]);
        if channels == 4 {
            rgba.push(data[at + 3]);
        } else {
            rgba.push(255);
        }
        assert((pixel + 1) * channels == pixel * channels + channels) by (nonlinear_arith);
        at = at + channels;
        pixel = pixel + 1;
    }
    let image = DecodedImage { width, height, rgba };
    assert(Some(image@) =~= raw_picture(data@, width, height, channels as int));
    Some(image)
}

/// Where an image stands, in cells.
#[derive(Debug, Clone, Copy, PartialEq, Eq, Structural)]
pub struct ImagePlacement {
    pub line: i32,
    pub column: usize,
    pub width: usize,
    pub height: usize,
}

/// A requested extent, where it is one.
pub open spec fn positive(value: Option<int>) -> Option<int> {
    match value {
        Some(value) => if value > 0 {
            Some(value)
        } else {
            None
        },
        None => None,
    }
}

/// The columns of an image: those requested, or one for every eight pixels.
pub open spec fn placed_width(pixel_width: int, requested: Option<int>) -> int {
    match positive(requested) {
        Some(width) => width,
        None => max_of((pixel_width + 7) / 8, 1),
    }
}

/// The rows of an image: those requested, or as many as keep its proportions
/// in cells that are twice as high as wide, rounded up.
pub open spec fn placed_height(
    pixel_width: int,
    pixel_height: int,
    width: int,
    requested: Option<int>,
) -> int {
    match positive(requested) {
        Some(height) => height,
        None => {
            let across = max_of(pixel_width, 1);
            let scaled = min_of(
                min_of(pixel_height * width, u64::MAX as int) + across * 2 - 1,
                u64::MAX as int,
            );
            let rows = scaled / across / 2;
            if rows > usize::MAX {
                1
            } else {
                max_of(rows, 1)
            }
        },
    }
}

/// The placement of an image at the cursor.
pub open spec fn placed_at(
    cursor: (i32, usize),
    pixel_width: int,
    pixel_height: int,
    requested_width: Option<int>,
    requested_height: Option<int>,
) -> ImagePlacement {
    let width = placed_width(pixel_width, requested_width);
    ImagePlacement {
        line: cursor.0,
        column: cursor.1,
        width: width as usize,
        height: placed_height(pixel_width, pixel_height, width, requested_height) as usize,
    }
}

/// An optional number as a mathematical one.
pub open spec fn extent(value: Option<usize>) -> Option<int> {
    match value {
        Some(value) => Some(value as int),
        None => None,
    }
}

pub fn placement_from_dimensions(
    cursor: (i32, usize),
    pixel_width: u32,
    pixel_height: u32,
    requested_width: Option<usize>,
    requested_height: Option<usize>,
) -> (placement: ImagePlacement)
    ensures
        placement == placed_at(
            cursor,
            pixel_width as int,
            pixel_height as int,
            extent(requested_width),
            extent(requested_height),
        ),
        placement.width >= 1,
        placement.height >= 1,
{
    let by_pixels: usize = (((pixel_width as u64 + 7) / 8) as usize).max(1);
    let width: usize = match requested_width {
        Some(width) => if width > 0 {
            width
        } else {
            by_pixels
        },
        None => by_pixels,
    };
    let across: u64 = if pixel_width == 0 {
        1
    } else {
        pixel_width as u64
    };
    let area: u64 = match (pixel_height as u64).checked_mul(width as u64) {
        Some(area) => area,
        None => u64::MAX,
    };
    let scaled: u64 = area.saturating_add(across * 2 - 1);
    let rows: u64 = scaled / across / 2;
    let by_ratio: usize = if rows > usize::MAX as u64 {
        1
    } else {
        (rows as usize).max(1)
    };
    let height: usize = match requested_height {
        Some(height) => if height > 0 {
            height
        } else {
            by_ratio
        },
        None => by_ratio,
    };
    ImagePlacement { line: cursor.0, column: cursor.1, width, height }
}

/// The placement that a transmission asks for at the cursor.
pub open spec fn placement_asked(parameters: Seq<u8>, cursor: (i32, usize)) -> ImagePlacement {
    placed_at(
        cursor,
        number_or(parameter_number(parameters, 's' as u8), 0),
        number_or(parameter_number(parameters, 'v' as u8), 0),
        parameter_number(parameters, 'c' as u8),
        parameter_number(parameters, 'r' as u8),
    )
}

pub open spec fn number_or(value: Option<int>, otherwise: int) -> int {
    match value {
        Some(value) => value,
        None => otherwise,
    }
}

/// The number of a parameter as a count of cells.
pub fn parameter_cells(parameters: &[u8], key: u8) -> (cells: Option<usize>)
    ensures
        extent(cells) == parameter_number(parameters@, key),
{
    match parameter_u32(parameters, key) {
        Some(number) => Some(number as usize),
        None => None,
    }
}

pub fn placement_from_parameters(parameters: &[u8], cursor: (i32, usize)) -> (placement:
    ImagePlacement)
    ensures
        placement == placement_asked(parameters@, cursor),
{
    placement_from_dimensions(
        cursor,
        parameter_u32(parameters, 's' as u8).unwrap_or(0),
        parameter_u32(parameters, 'v' as u8).unwrap_or(0),
        parameter_cells(parameters, 'c' as u8),
        parameter_cells(parameters, 'r' as u8),
    )
}

/// Raw pixels keep their colours and their places, row by row; without an alpha
/// channel they are opaque.
pub proof fn raw_pixels_keep_their_colors(
    data: Seq<u8>,
    width: u32,
    height: u32,
    channels: int,
    x: int,
    y: int,
)
    requires
        channels == 3 || channels == 4,
        0 <= x < width,
        0 <= y < height,
    ensures
        raw_picture(data, width, height, channels) matches Some(picture) ==> {
            let pixel = y * width + x;
            &&& picture.width == width
            &&& picture.height == height
            &&& picture.rgba.len() == width * height * 4
            &&& picture.rgba[pixel * 4] == data[pixel * channels]
            &&& picture.rgba[pixel * 4 + 1] == data[pixel * channels + 1]
            &&& picture.rgba[pixel * 4 + 2] == data[pixel * channels + 2]
            &&& picture.rgba[pixel * 4 + 3] == (if channels == 4 {
                data[pixel * channels + 3]
            } else {
                255u8
            })
        },
        raw_picture(data, width, height, channels) is Some == (width <= 8192 && height <= 8192
            && width * height <= 16 * 1024 * 1024 && width * height * channels <= 32 * 1024 * 1024
            && data.len() >= width * height * channels),
{
    let pixel = y * width + x;
    assert(0 <= pixel < width * height) by (nonlinear_arith)
        requires
            0 <= x < width,
            0 <= y < height,
            pixel == y * width + x,
    ;
}

/// An image stands at the cursor, in as many cells as were asked for. Where
/// nothing was asked for, a column holds eight pixels, and the rows keep the
/// proportions in cells that are twice as high as wide, rounded up.
pub proof fn an_image_stands_at_the_cursor(
    cursor: (i32, usize),
    pixel_width: int,
    pixel_height: int,
    columns: Option<int>,
    rows: Option<int>,
)
    requires
        0 < pixel_width <= 8192,
        0 < pixel_height <= 8192,
        columns is Some ==> 0 < columns->0 <= 4096,
        rows is Some ==> 0 < rows->0 <= 4096,
    ensures
        ({
            let placement = placed_at(cursor, pixel_width, pixel_height, columns, rows);
            &&& placement.line == cursor.0
            &&& placement.column == cursor.1
            &&& columns is Some ==> placement.width == columns->0
            &&& columns is None ==> 8 * (placement.width - 1) < pixel_width <= 8 * placement.width
            &&& rows is Some ==> placement.height == rows->0
            &&& rows is None ==> pixel_height * placement.width <= 2 * pixel_width
                * placement.height
            &&& rows is None ==> placement.height == 1 || 2 * pixel_width * (placement.height - 1)
                < pixel_height * placement.width
        }),
{
    let width = placed_width(pixel_width, columns);
    assert(0 < width <= 4096);
    if rows is None {
        let product = pixel_height * width;
        assert(0 < product <= 8192 * 4096) by (nonlinear_arith)
            requires
                0 < pixel_height <= 8192,
                0 < width <= 4096,
                product == pixel_height * width,
        ;
        let scaled = product + pixel_width * 2 - 1;
        let quotient = scaled / pixel_width;
        let height = quotient / 2;
        assert(pixel_width * quotient <= scaled < pixel_width * quotient + pixel_width)
            by (nonlinear_arith)
            requires
                pixel_width > 0,
                quotient == scaled / pixel_width,
        ;
        assert(2 <= quotient <= scaled) by (nonlinear_arith)
            requires
                pixel_width > 0,
                scaled >= 2 * pixel_width,
                pixel_width * quotient <= scaled < pixel_width * quotient + pixel_width,
        ;
        assert(2 * height <= quotient < 2 * height + 2);
        assert(product <= 2 * pixel_width * height && (height == 1 || 2 * pixel_width * (height - 1)
            < product)) by (nonlinear_arith)
            requires
                pixel_width > 0,
                product > 0,
                height >= 1,
                2 * height <= quotient < 2 * height + 2,
                scaled == product + pixel_width * 2 - 1,
                pixel_width * quotient <= scaled < pixel_width * quotient + pixel_width,
        ;
    }
}

/// A picture is taken as it was decoded where it is neither empty nor too large:
/// up to 8192 pixels either way, 16 million of them and 32 MiB.
pub proof fn a_decoded_picture_is_taken_as_it_is(
    width: u32,
    height: u32,
    rgba: Seq<u8>,
    data: Seq<u8>,
)
    ensures
        ({
            let fits = 0 < width <= 8192 && 0 < height <= 8192 && width * height <= 16777216
                && rgba.len() <= 33554432;
            accepted_picture(Some((width, height, rgba))) == if fits {
                Some(Picture { width, height, rgba })
            } else {
                None
            }
        }),
        accepted_picture(None) is None,
        data.len() <= 33554432 ==> encoded_picture(data) == accepted_picture(decoded_pixels(data)),
        data.len() > 33554432 ==> encoded_picture(data) is None,
{
}

/// The place of a transmitted picture is asked for by four parameters: `s` and `v`
/// give its pixels, `c` and `r` the cells it covers.
pub proof fn a_place_is_asked_for_by_parameters(
    parameters: Seq<u8>,
    cursor: (i32, usize),
    width: int,
    height: int,
)
    requires
        parameter_number(parameters, 0x73) == Some(width),
        parameter_number(parameters, 0x76) == Some(height),
    ensures
        placement_asked(parameters, cursor) == placed_at(
            cursor,
            width,
            height,
            parameter_number(parameters, 0x63),
            parameter_number(parameters, 0x72),
        ),
{
}

} // verus!

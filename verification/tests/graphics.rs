//! Images on the screen.
use water::ids::TerminalId;
use water::terminal::graphics::image::{
    accept_pixels, decode_encoded_image, decode_raw_image, validate_image_size,
};
use water::terminal::graphics::parser::{is_utf8_continuation, GraphicsEvent, GraphicsParser};
use water::terminal::graphics::placeholder::TERMINAL_IMAGE_PLACEHOLDER;
use water::terminal::graphics::protocol::TerminalGraphics;
use water::terminal::graphics::sixel::decode_sixel;
use water::terminal::snapshot::{TerminalColor, TerminalSize, TerminalSnapshot};
use water::terminal::stream::encode_base64;

fn png(width: u32, height: u32) -> Vec<u8> {
    let picture = image::RgbaImage::from_pixel(width, height, image::Rgba([1, 2, 3, 255]));
    let mut bytes = Vec::new();
    let encoder = image::codecs::png::PngEncoder::new(&mut bytes);
    image::ImageEncoder::write_image(
        encoder,
        picture.as_raw(),
        width,
        height,
        image::ExtendedColorType::Rgba8,
    )
    .unwrap();
    bytes
}

#[test]
fn kitty_graphics_survives_split_escape_sequence() {
    let mut parser = GraphicsParser::default();
    assert!(parser.feed(b"prefix\x1b_Ga=T;").is_empty());
    let mut second = b"data\x1b".to_vec();
    second.push(92);
    second.extend_from_slice(b"suffix");
    let events = parser.feed(&second);
    assert!(matches!(events.as_slice(), [GraphicsEvent::Kitty(payload)] if payload == b"a=T;data"));
}

#[test]
fn c1_graphics_sequences_are_supported() {
    let mut parser = GraphicsParser::default();
    let events = parser.feed(b"\x9fGi=31,a=q\x9c");
    assert!(matches!(events.as_slice(), [GraphicsEvent::Kitty(payload)] if payload == b"i=31,a=q"));

    let mut parser = GraphicsParser::default();
    assert!(parser.feed("”".as_bytes()).is_empty());
}

#[test]
fn bytes_of_a_character_introduce_nothing() {
    // The characters hold bytes that introduce a sequence on their own.
    for text in ["\u{201f}Gi=1,a=q\u{9c}", "\u{1f41f}Gi=1,a=q\x1b\\", "\u{2010}q#0~\x1b\\"] {
        let bytes = text.as_bytes();
        for split in 0..=bytes.len() {
            let mut parser = GraphicsParser::default();
            assert!(parser.feed(&bytes[..split]).is_empty());
            assert!(parser.feed(&bytes[split..]).is_empty());
        }
    }
    assert!(is_utf8_continuation(b"\xe2\x80\x9d", 1));
    assert!(is_utf8_continuation(b"\xe2\x80\x9d", 2));
    assert!(is_utf8_continuation(b"\xf0\x9d\x9d\x9d", 3));
    assert!(!is_utf8_continuation(b"\xe2\x80\x9d", 0));
    // No lead, or one that announces fewer bytes.
    assert!(!is_utf8_continuation(b"a\x9f", 1));
    assert!(!is_utf8_continuation(b"\xc3\xa9\x9f", 2));
    assert!(!is_utf8_continuation(b"\x9f", 0));
}

#[test]
fn a_sequence_behind_a_character_is_found() {
    let bytes = b"\xe2\x80\x9d\x9fGi=31,a=q\x9c";
    for split in 0..=bytes.len() {
        let mut parser = GraphicsParser::default();
        let mut events = parser.feed(&bytes[..split]);
        events.extend(parser.feed(&bytes[split..]));
        assert!(
            matches!(events.as_slice(), [GraphicsEvent::Kitty(payload)] if payload == b"i=31,a=q")
        );
    }
}

#[test]
fn sixel_decodes_pixels_and_palette() {
    let decoded = decode_sixel(b"q#1;2;100;0;0~").unwrap();
    assert_eq!((decoded.width, decoded.height), (1, 6));
    assert_eq!(&decoded.rgba[..4], &[255, 0, 0, 255]);
}

#[test]
fn kitty_png_is_placed_at_cursor() {
    let bytes = png(2, 2);
    let encoded = encode_base64(&bytes);
    let mut graphics = TerminalGraphics::default();
    graphics.feed(
        format!("\x1b_Ga=T,f=100,c=2,r=2;{encoded}\x1b\\").as_bytes(),
        (3, 4),
    );
    let terminal_snapshot = TerminalSnapshot::empty(TerminalId::new(1), TerminalSize::new(80, 24));
    let snapshot = graphics.snapshot(0, TerminalSize::new(80, 24), &terminal_snapshot);
    assert_eq!(snapshot.len(), 1);
    assert_eq!((snapshot[0].row, snapshot[0].column), (3, 4));
    assert_eq!((snapshot[0].pixel_width, snapshot[0].pixel_height), (2, 2));
    assert_eq!(&snapshot[0].rgba[..4], &[1, 2, 3, 255]);
}

#[test]
fn kitty_chunked_unicode_placeholder_is_resolved_from_terminal_cells() {
    let bytes = png(2, 2);
    let encoded = encode_base64(&bytes);
    let split = (encoded.len() / 2) & !3;
    let mut graphics = TerminalGraphics::default();
    graphics.feed(
        format!(
            "\x1b_Gq=2,a=T,C=1,U=1,f=100,s=2,v=2,c=2,r=2,i=42,m=1;{}\x1b\\",
            &encoded[..split]
        )
        .as_bytes(),
        (0, 0),
    );
    graphics.feed(
        format!("\x1b_Gm=0;{}\x1b\\", &encoded[split..]).as_bytes(),
        (0, 0),
    );

    let size = TerminalSize::new(80, 24);
    let mut terminal_snapshot = TerminalSnapshot::empty(TerminalId::new(1), size);
    for row in 1..3 {
        for column in 5..7 {
            let cell = terminal_snapshot.cell_mut(row, column).unwrap();
            cell.character = TERMINAL_IMAGE_PLACEHOLDER;
            cell.fg = TerminalColor::Rgb { red: 0, green: 0, blue: 42 };
        }
    }
    let snapshot = graphics.snapshot(0, size, &terminal_snapshot);
    assert_eq!(snapshot.len(), 1);
    assert_eq!((snapshot[0].row, snapshot[0].column), (1, 5));
    assert_eq!((snapshot[0].width, snapshot[0].height), (2, 2));
}

#[test]
fn kitty_capability_query_is_answered() {
    let mut graphics = TerminalGraphics::default();
    let responses = graphics.feed(b"\x1b_Gi=278941603,s=1,v=1,a=q,t=d,f=24;AAAA\x1b\\", (0, 0));
    assert_eq!(responses, vec![b"\x1b_Gi=278941603;OK\x1b\\".to_vec()]);
}

#[test]
fn encoded_images_are_decoded_by_their_format() {
    let decoded = decode_encoded_image(&png(3, 2)).unwrap();
    assert_eq!((decoded.width, decoded.height), (3, 2));
    assert_eq!(decoded.rgba.len(), 24);
    assert_eq!(&decoded.rgba[..4], &[1, 2, 3, 255]);
    assert!(decode_encoded_image(b"no image").is_none());
}

#[test]
fn pixels_that_do_not_fit_are_refused() {
    assert!(accept_pixels(None).is_none());
    assert!(accept_pixels(Some((0, 1, Vec::new()))).is_none());
    assert!(accept_pixels(Some((1, 1, vec![9, 8, 7, 6]))).is_some());
    assert!(validate_image_size(1, 1, 4));
    assert!(!validate_image_size(0, 1, 0));
    assert!(!validate_image_size(8 * 1024 + 1, 1, 4));
}

#[test]
fn raw_pixels_get_an_alpha_channel() {
    let decoded = decode_raw_image(&[1, 2, 3, 4, 5, 6], 2, 1, 3).unwrap();
    assert_eq!(decoded.rgba, vec![1, 2, 3, 255, 4, 5, 6, 255]);
    let decoded = decode_raw_image(&[1, 2, 3, 4], 1, 1, 4).unwrap();
    assert_eq!(decoded.rgba, vec![1, 2, 3, 4]);
    assert!(decode_raw_image(&[1, 2], 1, 1, 3).is_none());
}

#[test]
fn sequences_of_other_kinds_are_told_apart() {
    let mut parser = GraphicsParser::default();
    let events = parser.feed(b"\x1b]1337;File=inline=1:AAAA\x07\x1bPq#0~\x1b\\");
    assert_eq!(events.len(), 2);
    assert!(matches!(&events[0], GraphicsEvent::Iterm(_)));
    assert!(matches!(&events[1], GraphicsEvent::Sixel(_)));
}

#[test]
fn deleting_drops_the_images() {
    let encoded = encode_base64(&png(2, 2));
    let mut graphics = TerminalGraphics::default();
    graphics.feed(
        format!("\x1b_Ga=T,f=100,i=5,c=2,r=2;{encoded}\x1b\\").as_bytes(),
        (3, 4),
    );
    let size = TerminalSize::new(80, 24);
    let screen = TerminalSnapshot::empty(TerminalId::new(1), size);
    assert_eq!(graphics.snapshot(0, size, &screen).len(), 1);
    graphics.feed(b"\x1b_Ga=d,d=i,i=6\x1b\\", (0, 0));
    assert_eq!(graphics.snapshot(0, size, &screen).len(), 1);
    graphics.feed(b"\x1b_Ga=d,d=i,i=5\x1b\\", (0, 0));
    assert_eq!(graphics.snapshot(0, size, &screen).len(), 0);
    graphics.feed(
        format!("\x1b_Ga=T,f=100,i=5,c=2,r=2;{encoded}\x1b\\").as_bytes(),
        (3, 4),
    );
    graphics.feed(b"\x1b_Ga=d,d=A\x1b\\", (0, 0));
    assert_eq!(graphics.snapshot(0, size, &screen).len(), 0);
}

#[test]
fn a_file_is_awaited_before_what_follows() {
    let mut graphics = TerminalGraphics::default();
    let path = encode_base64(b"/tmp/water-image.png");
    graphics.feed(
        format!("\x1b_Ga=T,f=100,t=f,i=7,c=1,r=1;{path}\x1b\\").as_bytes(),
        (2, 3),
    );
    assert_eq!(graphics.awaited_file(), Some(&b"/tmp/water-image.png"[..]));
    let size = TerminalSize::new(80, 24);
    let screen = TerminalSnapshot::empty(TerminalId::new(1), size);
    assert_eq!(graphics.snapshot(0, size, &screen).len(), 0);
    graphics.provide_file(Some(png(2, 2)));
    assert_eq!(graphics.awaited_file(), None);
    let shown = graphics.snapshot(0, size, &screen);
    assert_eq!(shown.len(), 1);
    assert_eq!((shown[0].row, shown[0].column), (2, 3));
}

#[test]
fn an_erase_drops_the_file_that_is_awaited() {
    let mut graphics = TerminalGraphics::default();
    let path = encode_base64(b"/tmp/water-image.png");
    graphics.feed(
        format!("\x1b_Ga=T,f=100,t=f,i=7,c=1,r=1;{path}\x1b\\").as_bytes(),
        (2, 3),
    );
    assert!(graphics.awaited_file().is_some());
    graphics.feed(b"\x1b[2J", (0, 0));
    assert_eq!(graphics.awaited_file(), None);
    graphics.provide_file(Some(png(2, 2)));
    let size = TerminalSize::new(80, 24);
    let screen = TerminalSnapshot::empty(TerminalId::new(1), size);
    assert_eq!(graphics.snapshot(0, size, &screen).len(), 0);
}

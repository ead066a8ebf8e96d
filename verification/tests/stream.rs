//! Stream events and their wire form.
use std::sync::Arc;

use water::terminal::snapshot::TerminalSize;
use water::terminal::stream::{
    decode_base64, encode_base64, TerminalStreamEvent, WireTerminalEvent,
};

#[test]
fn base64_roundtrips_all_remainder_lengths() {
    for length in 0..8_u8 {
        let data: Vec<u8> = (0..length).map(|i| (i * 37 + 11) as u8).collect();
        let encoded = encode_base64(&data);
        assert_eq!(decode_base64(&encoded).as_deref(), Some(&data[..]));
    }
    let data: Vec<u8> = (0..257u16).map(|i| (i % 251) as u8).collect();
    let encoded = encode_base64(&data);
    assert_eq!(decode_base64(&encoded).as_deref(), Some(&data[..]));
}

#[test]
fn wire_events_roundtrip_with_geometry_fallback() {
    let size = TerminalSize::new(100, 30);
    let events = [
        TerminalStreamEvent::Resize { seq: 1, size },
        TerminalStreamEvent::Output { seq: 2, size, bytes: Arc::from(vec![0, 1, 2, 3, 255]) },
        TerminalStreamEvent::Exit { seq: 3, code: Some(7) },
    ];
    for event in &events {
        let wire = event.to_wire();
        assert_eq!(TerminalStreamEvent::from_wire(&wire, size).as_ref(), Some(event));
    }
    let wire = WireTerminalEvent::Output { seq: 4, bytes: "aGk=".to_owned() };
    let event = TerminalStreamEvent::from_wire(&wire, size).unwrap();
    assert_eq!(event.output_bytes(), 2);
}

#[test]
fn base64_is_the_usual_alphabet() {
    assert_eq!(encode_base64(b"hi"), "aGk=");
    assert_eq!(encode_base64(b"hi?"), "aGk/");
    assert_eq!(encode_base64(&[0xfb, 0xff]), "+/8=");
    assert_eq!(encode_base64(&[]), "");
    assert_eq!(decode_base64("aGk/").as_deref(), Some(&b"hi?"[..]));
    assert_eq!(decode_base64("a*k="), None);
}

#[test]
fn an_event_that_cannot_be_read_is_dropped() {
    let wire = WireTerminalEvent::Output { seq: 4, bytes: "*".to_owned() };
    assert_eq!(TerminalStreamEvent::from_wire(&wire, TerminalSize::new(80, 24)), None);
}

#[test]
fn a_wire_resize_is_clamped() {
    let wire = WireTerminalEvent::Resize { seq: 9, columns: 0, lines: 100_000 };
    let event = TerminalStreamEvent::from_wire(&wire, TerminalSize::new(80, 24)).unwrap();
    assert_eq!(event.seq(), 9);
    assert_eq!(event.size(), Some(TerminalSize::new(2, 256)));
    assert_eq!(event.output_bytes(), 0);
}

#[test]
fn an_exit_has_no_geometry() {
    let event = TerminalStreamEvent::Exit { seq: 5, code: None };
    assert_eq!(event.size(), None);
    assert_eq!(event.to_wire(), WireTerminalEvent::Exit { seq: 5, code: None });
}

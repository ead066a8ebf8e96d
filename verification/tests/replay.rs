//! The replay ring.
use std::sync::Arc;

use water::terminal::replay::{ReplayRing, EVENT_OVERHEAD_BYTES, MAX_REPLAY_BYTES};
use water::terminal::snapshot::TerminalSize;
use water::terminal::stream::{TerminalSeq, TerminalStreamEvent};

fn bytes(data: &[u8]) -> Arc<[u8]> {
    Arc::from(data.to_vec())
}

#[test]
fn replay_starts_at_the_initial_geometry_anchor() {
    let ring = ReplayRing::new(TerminalSize::new(80, 24), 64 * 1024);
    assert_eq!(ring.first_seq(), Some(1));
    assert_eq!(ring.first_size(), Some(TerminalSize::new(80, 24)));
    assert_eq!(ring.last_seq(), 1);
    let stream = ring.to_stream();
    assert_eq!(stream.len(), 1);
    assert!(matches!(
        stream[0],
        TerminalStreamEvent::Resize { seq: 1, size: TerminalSize { columns: 80, lines: 24 } }
    ));
}

#[test]
fn output_and_resize_stay_strictly_ordered() {
    let mut ring = ReplayRing::new(TerminalSize::new(80, 24), 64 * 1024);
    let size = TerminalSize::new(80, 24);
    assert_eq!(ring.push_output(size, bytes(b"hello ")), 2);
    assert_eq!(ring.push_output(size, bytes(b"world")), 3);
    let wide = TerminalSize::new(120, 40);
    assert_eq!(ring.push_resize(wide), 4);
    assert_eq!(ring.push_output(wide, bytes(b"wide output")), 5);
    assert_eq!(ring.finish(Some(0)), 6);

    let stream = ring.to_stream();
    let sequences: Vec<TerminalSeq> = stream.iter().map(|e| e.seq()).collect();
    assert_eq!(sequences, vec![1, 2, 3, 4, 5, 6]);
    // Geometry travels with the events.
    assert_eq!(stream[4].size(), Some(wide));
    assert!(ring.is_finished());
    assert_eq!(ring.exit_code(), Some(Some(0)));
}

#[test]
fn eviction_drops_oldest_events_and_keeps_geometry() {
    let mut ring = ReplayRing::new(TerminalSize::new(10, 3), 100);
    let small = TerminalSize::new(10, 3);
    for _ in 0..10 {
        ring.push_output(small, bytes(&[b'a'; 30]));
    }
    assert!(ring.total_bytes() <= 100);
    // The initial anchor may be evicted; the oldest surviving event still
    // carries its geometry.
    assert!(ring.first_size().is_some());
    assert!(ring.first_seq().unwrap() > 1);
    let stream = ring.to_stream();
    assert!(
        stream.iter().map(|e| e.output_bytes()).sum::<usize>() < ring.total_bytes(),
        "metadata must be included in the hard budget"
    );
    // Newest event always survives.
    assert_eq!(stream.last().unwrap().seq(), ring.last_seq());
}

#[test]
fn single_oversized_event_is_trimmed_from_the_front() {
    let mut ring = ReplayRing::new(TerminalSize::new(10, 3), 100);
    let small = TerminalSize::new(10, 3);
    ring.push_output(small, bytes(&[b'x'; 500]));
    assert_eq!(ring.total_bytes(), 100);
    let stream = ring.to_stream();
    // The anchor is evicted first; the output survives as its tail and still
    // carries its geometry.
    assert_eq!(stream.len(), 1);
    assert_eq!(stream[0].output_bytes(), 100 - EVENT_OVERHEAD_BYTES);
    assert_eq!(stream[0].size(), Some(small));
}

#[test]
fn resize_only_storm_is_memory_bounded() {
    let mut ring = ReplayRing::new(TerminalSize::new(10, 3), 1024);
    for columns in 20..20_000 {
        ring.push_resize(TerminalSize::new(columns, 40));
    }
    assert!(ring.total_bytes() <= 1024);
    assert!(ring.event_count() <= 1024 / EVENT_OVERHEAD_BYTES);
    assert_eq!(ring.last_size(), Some(TerminalSize::new(19_999, 40)));
}

#[test]
fn trim_to_bounds_retired_history() {
    let mut ring = ReplayRing::new(TerminalSize::new(10, 3), 64 * 1024);
    let small = TerminalSize::new(10, 3);
    for _ in 0..20 {
        ring.push_output(small, bytes(&[b'y'; 1024]));
    }
    let before = ring.total_bytes();
    assert!(before >= 20 * 1024);
    ring.trim_to(4 * 1024);
    assert!(ring.total_bytes() <= 4 * 1024);
    assert!(ring.last_seq() > 1);
}

#[test]
fn the_tail_of_an_oversized_event_is_kept() {
    let mut ring = ReplayRing::new(TerminalSize::new(10, 3), 70);
    ring.push_output(TerminalSize::new(10, 3), bytes(b"0123456789"));
    let stream = ring.to_stream();
    assert_eq!(stream.len(), 1);
    match &stream[0] {
        TerminalStreamEvent::Output { seq, bytes, .. } => {
            assert_eq!(*seq, 2);
            assert_eq!(&bytes[..], b"456789");
        }
        other => panic!("unexpected event {other:?}"),
    }
}

#[test]
fn a_budget_has_a_ceiling() {
    let mut ring = ReplayRing::new(TerminalSize::new(10, 3), usize::MAX);
    let size = TerminalSize::new(10, 3);
    for _ in 0..20 {
        ring.push_output(size, bytes(&vec![b'z'; 1024 * 1024]));
    }
    assert!(ring.total_bytes() <= MAX_REPLAY_BYTES);
}

#[test]
fn the_history_is_searched_event_by_event() {
    let mut ring = ReplayRing::new(TerminalSize::new(80, 24), 64 * 1024);
    let size = TerminalSize::new(80, 24);
    ring.push_output(size, bytes(b"a needle"));
    ring.push_output(size, bytes(b"noo"));
    ring.push_output(size, bytes(b"dle"));
    assert!(ring.raw_contains("needle"));
    assert!(!ring.raw_contains("noodle"));
    assert!(ring.raw_contains(""));
    assert!(!ring.is_finished());
    assert_eq!(ring.exit_code(), None);
}

//! The registry of terminals.
use std::sync::Arc;

use water::ids::TerminalId;
use water::terminal::emulator::snapshot_from_replay;
use water::terminal::registry::{
    TerminalError, TerminalRegistry, WaitProgress, WaitStep, RECENT_OUTPUT_BYTES,
    RETIRED_REPLAY_BYTES,
};
use water::terminal::replay::ReplayRing;
use water::terminal::snapshot::{TerminalProcessState, TerminalSize};
use water::terminal::stream::TerminalStreamEvent;

fn test_ring() -> ReplayRing {
    ReplayRing::new(TerminalSize::new(80, 24), 64 * 1024)
}

#[test]
fn registry_attach_delivers_replay_and_live_events() {
    let mut registry = TerminalRegistry::new();
    let terminal_id = TerminalId::new(1);
    registry.register(terminal_id, test_ring()).unwrap();

    // The worker is asked: it answers with the history and goes on live.
    assert!(registry.attach(terminal_id).unwrap().is_none());
    let attachment = registry.attachment(terminal_id).unwrap();
    assert_eq!(attachment.last_seq, 1);
    assert_eq!(attachment.replay.len(), 1);
    let size = TerminalSize::new(80, 24);
    let bytes: Arc<[u8]> = Arc::from(b"print\n".to_vec());
    let seq = registry.push_output(terminal_id, size, bytes.clone()).unwrap();
    assert_eq!(seq, attachment.last_seq + 1);
    let first = TerminalStreamEvent::Output { seq, size, bytes };
    let second = first.clone();
    assert_eq!(first.seq(), second.seq());
    assert_eq!(first.output_bytes(), b"print\n".len());
    assert_eq!(registry.attachment(terminal_id).unwrap().replay.last(), Some(&first));
}

#[test]
fn wait_process_exit_uses_lifecycle_state() {
    let mut registry = TerminalRegistry::new();
    let terminal_id = TerminalId::new(2);
    registry.register(terminal_id, test_ring()).unwrap();

    assert!(matches!(
        registry.wait_process_exit(terminal_id, 5_000, WaitProgress::Waiting),
        WaitStep::Wait
    ));
    registry.mark_exited(terminal_id, Some(3));
    let WaitStep::Done(replay) =
        registry.wait_process_exit(terminal_id, 5_000, WaitProgress::Waiting)
    else {
        panic!("the process has exited")
    };
    assert!(matches!(replay.process, TerminalProcessState::Exited { code: Some(3) }));
}

#[test]
fn replay_snapshot_rebuilds_the_screen_from_raw_events() {
    let mut registry = TerminalRegistry::new();
    let terminal_id = TerminalId::new(3);
    registry.register(terminal_id, test_ring()).unwrap();

    let size = TerminalSize::new(80, 24);
    registry.push_output(terminal_id, size, Arc::from(b"WATER_CAPTURE_ME\r\n".to_vec()));
    let capture = registry.replay(terminal_id).unwrap();
    let snapshot = snapshot_from_replay(&capture, 2_000).unwrap();
    assert!(snapshot.visible_text().contains("WATER_CAPTURE_ME"));

    // Resize history is honored by the replay.
    let wide = TerminalSize::new(100, 30);
    registry.push_resize(terminal_id, wide);
    let capture = registry.replay(terminal_id).unwrap();
    let snapshot = snapshot_from_replay(&capture, 2_000).unwrap();
    assert_eq!(snapshot.size.columns, 100);
}

#[test]
fn contains_text_matches_the_raw_replay_history() {
    let mut registry = TerminalRegistry::new();
    let terminal_id = TerminalId::new(4);
    registry.register(terminal_id, test_ring()).unwrap();
    registry.publish_output(terminal_id, b"needle-haystack-needle\n");
    let WaitStep::Done(replay) =
        registry.contains_text(terminal_id, "needle-haystack", 1_000, WaitProgress::Waiting)
    else {
        panic!("the text was printed")
    };
    assert_eq!(replay.terminal_id, terminal_id);
}

#[test]
fn an_unknown_terminal_is_refused() {
    let registry = TerminalRegistry::new();
    let id = TerminalId::new(9);
    assert!(matches!(registry.attach(id), Err(TerminalError::NotFound(missing)) if missing == id));
    assert!(matches!(registry.replay(id), Err(TerminalError::NotFound(_))));
    assert!(matches!(registry.process_state(id), Err(TerminalError::NotFound(_))));
    assert!(matches!(registry.accepts_commands(id), Err(TerminalError::NotFound(_))));
    assert!(matches!(
        registry.contains_text(id, "x", 10, WaitProgress::Waiting),
        WaitStep::Failed(TerminalError::NotFound(_))
    ));
    assert!(matches!(
        registry.wait_process_exit(id, 10, WaitProgress::Waiting),
        WaitStep::Failed(TerminalError::NotFound(_))
    ));
    assert!(registry.attachment(id).is_none());
    assert_eq!(registry.terminal_count(), 0);
}

#[test]
fn a_removed_terminal_is_handed_back() {
    let mut registry = TerminalRegistry::new();
    let id = TerminalId::new(9);
    assert!(registry.remove(id).is_none());
    registry.register(id, test_ring()).unwrap();
    assert!(registry.remove(id).is_some());
    assert!(registry.remove(id).is_none());
    assert!(matches!(
        registry.contains_text(id, "x", 250, WaitProgress::Expired),
        WaitStep::Failed(TerminalError::NotFound(_))
    ));
}

#[test]
fn a_text_that_never_comes_ends_in_an_error() {
    let mut registry = TerminalRegistry::new();
    let id = TerminalId::new(9);
    registry.register(id, test_ring()).unwrap();
    registry.push_output(id, TerminalSize::new(80, 24), Arc::from(b"other".to_vec()));
    assert!(matches!(
        registry.contains_text(id, "needle", 250, WaitProgress::Waiting),
        WaitStep::Wait
    ));
    assert!(matches!(
        registry.contains_text(id, "needle", 250, WaitProgress::Expired),
        WaitStep::Failed(TerminalError::Timeout(250))
    ));
    assert!(matches!(
        registry.contains_text(id, "needle", 250, WaitProgress::TimedOut),
        WaitStep::Failed(TerminalError::Timeout(250))
    ));
    registry.mark_exited(id, None);
    assert!(matches!(
        registry.contains_text(id, "needle", 250, WaitProgress::Waiting),
        WaitStep::Failed(TerminalError::ProcessExited(_))
    ));
    assert!(matches!(
        registry.contains_text(id, "other", 250, WaitProgress::Waiting),
        WaitStep::Done(_)
    ));
}

#[test]
fn a_terminal_that_is_over_answers_for_its_worker() {
    let mut registry = TerminalRegistry::new();
    let id = TerminalId::new(7);
    registry.register(id, test_ring()).unwrap();
    registry.push_output(id, TerminalSize::new(80, 24), Arc::from(b"bye".to_vec()));
    assert_eq!(registry.finish(id, Some(1)), Some(3));
    registry.mark_exited(id, Some(1));
    let attachment = registry.attach(id).unwrap().unwrap();
    assert_eq!(attachment.last_seq, 3);
    assert_eq!(attachment.replay.len(), 3);
    assert!(matches!(registry.accepts_commands(id), Err(TerminalError::NotRunning(_))));
}

#[test]
fn a_terminal_is_registered_once() {
    let mut registry = TerminalRegistry::new();
    let id = TerminalId::new(7);
    assert!(registry.register(id, test_ring()).is_ok());
    assert!(registry.register(id, test_ring()).is_err());
    assert_eq!(registry.terminal_count(), 1);
    registry.remove(id);
    assert_eq!(registry.terminal_count(), 0);
}

#[test]
fn retired_terminals_keep_little() {
    let mut registry = TerminalRegistry::new();
    let id = TerminalId::new(7);
    registry
        .register(id, ReplayRing::new(TerminalSize::new(80, 24), 8 * 1024 * 1024))
        .unwrap();
    for _ in 0..64 {
        registry.push_output(
            id,
            TerminalSize::new(80, 24),
            Arc::from(vec![b'x'; 64 * 1024]),
        );
        registry.publish_output(id, &vec![b'x'; 64 * 1024]);
    }
    assert!(registry.retained_replay_bytes() > RETIRED_REPLAY_BYTES);
    registry.compact_for_retirement(id);
    assert!(registry.retained_replay_bytes() <= RETIRED_REPLAY_BYTES + RECENT_OUTPUT_BYTES);
}

#[test]
fn broken_output_is_replaced_and_searched() {
    let mut registry = TerminalRegistry::new();
    let id = TerminalId::new(7);
    registry.register(id, test_ring()).unwrap();
    registry.publish_output(id, b"be\xfffore");
    assert!(matches!(
        registry.contains_text(id, "be\u{fffd}fore", 10, WaitProgress::Waiting),
        WaitStep::Done(_)
    ));
    assert!(matches!(
        registry.contains_text(id, "before", 10, WaitProgress::Waiting),
        WaitStep::Wait
    ));
}

#[test]
fn errors_are_told_in_words() {
    let id = TerminalId::new(4);
    let texts: Vec<String> = vec![
        TerminalError::NotFound(id).message(),
        TerminalError::NotRunning(id).message(),
        TerminalError::SpawnFailed("no shell".to_owned()).message(),
        TerminalError::WorkerClosed(id).message(),
        TerminalError::Timeout(1_500).message(),
        TerminalError::ProcessExited(id).message(),
    ];
    assert_eq!(
        texts,
        vec![
            "terminal 4 was not found",
            "terminal 4 is not running",
            "terminal spawn failed: no shell",
            "terminal worker channel closed for 4",
            "terminal wait timed out after 1500ms",
            "terminal 4 exited before the requested condition",
        ]
    );
}

#[test]
fn the_last_sequence_number_is_known() {
    let mut registry = TerminalRegistry::new();
    let terminal_id = TerminalId::new(4);
    assert_eq!(registry.last_seq(terminal_id), None);
    registry.register(terminal_id, test_ring()).unwrap();
    let before = registry.last_seq(terminal_id).unwrap();
    let size = TerminalSize::new(80, 24);
    let seq = registry.push_output(terminal_id, size, Arc::from(b"x".to_vec())).unwrap();
    assert_eq!(registry.last_seq(terminal_id), Some(seq));
    assert_eq!(seq, before + 1);
}

#[test]
fn an_evicted_history_attaches_without_gaps() {
    let mut registry = TerminalRegistry::new();
    let terminal_id = TerminalId::new(5);
    let size = TerminalSize::new(80, 24);
    registry.register(terminal_id, ReplayRing::new(size, 512)).unwrap();
    for _ in 0..40 {
        registry.push_output(terminal_id, size, Arc::from(b"twelve bytes".to_vec())).unwrap();
    }
    let attachment = registry.attachment(terminal_id).unwrap();
    let seqs: Vec<u64> = attachment.replay.iter().map(|event| event.seq()).collect();
    assert!(seqs[0] > 1);
    assert_eq!(seqs, (seqs[0]..=attachment.last_seq).collect::<Vec<u64>>());
    assert_eq!(attachment.last_seq, 41);
}

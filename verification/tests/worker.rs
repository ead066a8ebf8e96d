//! The worker of a terminal.
use std::sync::atomic::{AtomicBool, Ordering};
use std::sync::mpsc;

use water::ids::TerminalId;
use water::terminal::manager::TerminalWorkerCommand;
use water::terminal::registry::{TerminalRegistry, WaitProgress, WaitStep};
use water::terminal::replay::ReplayRing;
use water::terminal::snapshot::TerminalSize;
use water::terminal::stream::{TerminalStreamEvent, MAX_OUTPUT_EVENT_BYTES};
use water::terminal::worker::drain::{drain_data, drain_step, ReadEffect, Received};
use water::terminal::worker::machine::{
    CommandAction, InputBuffer, Worker, INPUT_COALESCE_MAX_BYTES, MAX_COMMANDS_PER_TICK,
};
use water::terminal::worker::metadata::{
    buffered_process_cwd, buffered_process_name, cmdline_token, foreground_process_id,
    kill_targets, parse_kern_procargs2, parse_proc_cmdline, query_process_metadata,
    reported_process_name, KillTargets, ProbeReply, ProcessMetadataFallback,
};
use water::terminal::worker::reader::{PtyReader, READER_BLOCK_BYTES};
use water::terminal::worker::title::{TitleScanner, MAX_TITLE_BYTES};

#[test]
fn title_scanner_finds_osc_titles() {
    let mut scanner = TitleScanner::new();
    let mut titles: Vec<String> = Vec::new();
    titles.extend(scanner.feed(b"plain text before "));
    titles.extend(scanner.feed(b"\x1b]0;First Title\x07after "));
    titles.extend(scanner.feed(b"\x1b]2;Second\x1b\\ tail"));
    // Non-title OSCs and split sequences.
    titles.extend(scanner.feed(b"\x1b]5;100;200;300\x07"));
    titles.extend(scanner.feed(b"\x1b]0"));
    titles.extend(scanner.feed(b";Split Title\x07"));
    assert_eq!(titles, vec!["First Title", "Second", "Split Title"]);
}

#[test]
fn title_scanner_handles_escaped_content_and_long_titles() {
    let mut scanner = TitleScanner::new();
    let mut titles: Vec<String> = Vec::new();
    // A title with semicolon params keeps them joined.
    titles.extend(scanner.feed(b"\x1b]2;a;b\x07"));
    assert_eq!(titles, vec!["a;b"]);
    // An ESC terminates the OSC (vte rule) and starts a new sequence.
    titles.extend(scanner.feed(b"\x1b]0;Via Esc\x1b[m"));
    assert_eq!(titles.last(), Some(&"Via Esc".to_owned()));
    let long: Vec<u8> = [b'x'; MAX_TITLE_BYTES + 10].to_vec();
    titles.extend(scanner.feed(&long));
    assert_eq!(titles.len(), 2);
}

#[test]
fn drain_data_coalesces_until_the_byte_budget() {
    let chunk = vec![b'x'; 4 * 1024];
    let (tx, rx) = mpsc::channel::<Vec<u8>>();
    let (free_tx, _free_rx) = mpsc::sync_channel::<Vec<u8>>(8);
    let parser_wakeup_pending = AtomicBool::new(true);
    for _ in 0..(8 * 1024 / 4096) {
        tx.send(chunk.clone()).unwrap();
    }
    drop(tx);
    let mut batch = Vec::new();
    let mut held = None;
    let effect =
        drain_data(&rx, &mut held, &free_tx, &parser_wakeup_pending, &mut batch, 16 * 1024);
    assert_eq!(effect, ReadEffect::Eof);
    assert_eq!(batch.len(), 8 * 1024);
}

#[test]
fn drain_data_reports_budget_exhaustion_without_losing_blocks() {
    let big = vec![b'y'; 64 * 1024];
    let (tx, rx) = mpsc::channel::<Vec<u8>>();
    let (free_tx, free_rx) = mpsc::sync_channel::<Vec<u8>>(4);
    let parser_wakeup_pending = AtomicBool::new(true);
    tx.send(big.clone()).unwrap();
    tx.send(big.clone()).unwrap();
    drop(tx);
    let mut batch = Vec::new();
    let mut held = None;
    let effect =
        drain_data(&rx, &mut held, &free_tx, &parser_wakeup_pending, &mut batch, 64 * 1024);
    assert_eq!(effect, ReadEffect::BudgetExhausted);
    assert_eq!(batch.len(), 64 * 1024);
    // The emptied block goes back to the free pool.
    assert_eq!(free_rx.try_recv().unwrap().len(), 0);
    // The one that did not fit is still there.
    assert!(free_rx.try_recv().is_err());
    assert_eq!(held, Some(big));
}

#[test]
fn a_block_that_does_not_fit_comes_with_the_next_drain() {
    let (tx, rx) = mpsc::channel::<Vec<u8>>();
    let (free_tx, free_rx) = mpsc::sync_channel::<Vec<u8>>(4);
    let pending = AtomicBool::new(true);
    for block in [b"abc", b"def", b"ghi"] {
        tx.send(block.to_vec()).unwrap();
    }
    drop(tx);
    let mut held = None;
    let mut read: Vec<u8> = Vec::new();
    let mut effects = Vec::new();
    for _ in 0..3 {
        let mut batch = Vec::new();
        effects.push(drain_data(&rx, &mut held, &free_tx, &pending, &mut batch, 4));
        assert!(batch.len() <= 4);
        read.extend_from_slice(&batch);
    }
    assert_eq!(read, b"abcdefghi");
    assert_eq!(
        effects,
        vec![ReadEffect::BudgetExhausted, ReadEffect::BudgetExhausted, ReadEffect::Eof]
    );
    assert_eq!(held, None);
    let released: Vec<Vec<u8>> = free_rx.try_iter().collect();
    assert_eq!(released, vec![Vec::<u8>::new(), Vec::new(), Vec::new()]);
}

#[test]
fn an_empty_mailbox_clears_the_wakeup() {
    let (tx, rx) = mpsc::channel::<Vec<u8>>();
    let (free_tx, free_rx) = mpsc::sync_channel::<Vec<u8>>(4);
    let pending = AtomicBool::new(true);
    tx.send(b"one ".to_vec()).unwrap();
    tx.send(b"two".to_vec()).unwrap();
    let mut batch = Vec::new();
    let effect = drain_data(&rx, &mut None, &free_tx, &pending, &mut batch, 1024);
    assert_eq!(effect, ReadEffect::Continue);
    assert_eq!(batch, b"one two");
    assert!(!pending.load(Ordering::SeqCst));
    assert_eq!(free_rx.try_recv().unwrap().len(), 0);
    assert_eq!(free_rx.try_recv().unwrap().len(), 0);
}

#[test]
fn an_empty_mailbox_is_looked_at_twice() {
    let mut batch = Vec::new();
    let step = drain_step(&mut batch, 1024, Received::Empty, false);
    assert!(step.rechecking);
    assert_eq!(step.effect, None);
    assert_eq!(step.wakeup_pending, Some(false));
    let step = drain_step(&mut batch, 1024, Received::Empty, true);
    assert_eq!(step.effect, Some(ReadEffect::Continue));
    let step = drain_step(&mut batch, 1024, Received::Closed, false);
    assert_eq!(step.effect, Some(ReadEffect::Eof));
}

const MILLI: u64 = 1_000_000;

#[test]
fn isolated_keys_are_written_at_once_and_bursts_wait() {
    let mut input = InputBuffer::new();
    assert_eq!(input.input(b"a".to_vec(), 1_000 * MILLI), Some(b"a".to_vec()));
    assert_eq!(input.input(b"b".to_vec(), 1_010 * MILLI), None);
    assert_eq!(input.input(b"c".to_vec(), 1_020 * MILLI), None);
    assert_eq!(input.wait_left(1_020 * MILLI), 14 * MILLI);
    assert_eq!(input.flush_due(1_033 * MILLI), None);
    assert_eq!(input.flush_due(1_034 * MILLI), Some(b"bc".to_vec()));
    assert!(input.is_empty());
    assert_eq!(input.input(b"d".to_vec(), 2_000 * MILLI), Some(b"d".to_vec()));
}

#[test]
fn much_input_is_not_held_back() {
    let mut input = InputBuffer::new();
    input.input(b"a".to_vec(), 0);
    let large = vec![b'x'; INPUT_COALESCE_MAX_BYTES];
    assert_eq!(input.input(large.clone(), 1), Some(large));
    assert!(input.is_empty());
}

fn fallback() -> ProcessMetadataFallback {
    ProcessMetadataFallback {
        process_name: "zsh".to_owned(),
        cwd: "/home".to_owned(),
        cmdline: vec!["zsh".to_owned(), "-l".to_owned()],
    }
}

#[test]
fn commands_become_actions() {
    let size = TerminalSize::new(80, 24);
    let mut worker = Worker::new(TerminalId::new(1), size, &fallback(), 0);
    worker.begin_tick();
    assert!(worker.takes_command());
    let step = worker.command(TerminalWorkerCommand::SendText(b"ls\r".to_vec()), 0);
    assert_eq!(step.write, Some(b"ls\r".to_vec()));
    assert_eq!(step.action, CommandAction::Keep);
    let step = worker.command(TerminalWorkerCommand::SendBytes(b"x".to_vec()), MILLI);
    assert_eq!(step.write, None);
    assert_eq!(step.action, CommandAction::Keep);
    // What waits decides how long the worker sleeps.
    assert_eq!(worker.poll_timeout(MILLI), 24 * MILLI);
    // Another command writes what waits before it acts.
    let wide = TerminalSize::new(100, 30);
    let step = worker.command(TerminalWorkerCommand::Resize(wide), MILLI);
    assert_eq!(step.write, Some(b"x".to_vec()));
    assert_eq!(step.action, CommandAction::Resize(wide));
    let step = worker.command(TerminalWorkerCommand::Attach, MILLI);
    assert_eq!(step.write, None);
    assert_eq!(step.action, CommandAction::Attach);
    worker.command(TerminalWorkerCommand::SendBytes(b"y".to_vec()), 2 * MILLI);
    let step = worker.command(TerminalWorkerCommand::Shutdown, 2 * MILLI);
    assert_eq!(step.write, Some(b"y".to_vec()));
    assert_eq!(step.action, CommandAction::Kill);
}

#[test]
fn a_worker_numbers_on_where_its_terminal_is_gone() {
    let narrow = TerminalSize::new(80, 24);
    let wide = TerminalSize::new(100, 30);
    let mut registry = TerminalRegistry::new();
    let mut worker = Worker::new(TerminalId::new(1), narrow, &fallback(), 0);
    assert!(worker.has_room(&registry, 5));
    let published = worker.publish_raw_output(&mut registry, b"hello");
    assert_eq!(published.events.len(), 1);
    assert_eq!(published.events[0].seq(), 2);
    let resize = worker.resize(&mut registry, wide);
    assert_eq!(resize, TerminalStreamEvent::Resize { seq: 3, size: wide });
    assert_eq!(worker.size(), wide);
    let exit = worker.exit(&mut registry, None);
    assert_eq!(exit, TerminalStreamEvent::Exit { seq: 4, code: None });
    assert_eq!(registry.terminal_count(), 0);
}

#[test]
fn a_resize_divides_the_stream() {
    let narrow = TerminalSize::new(80, 24);
    let wide = TerminalSize::new(100, 30);
    let id = TerminalId::new(1);
    let mut registry = TerminalRegistry::new();
    registry.register(id, ReplayRing::new(narrow, 8 * 1024 * 1024)).unwrap();
    let mut worker = Worker::new(id, narrow, &fallback(), 0);
    let (published, event) =
        worker.resize_after_output(&mut registry, b"\x1b]0;old\x07text", wide, MILLI);
    assert_eq!(published.titles, vec!["old"]);
    assert!(matches!(
        &published.events[..],
        [TerminalStreamEvent::Output { seq: 2, size, .. }] if *size == narrow
    ));
    assert_eq!(event, TerminalStreamEvent::Resize { seq: 3, size: wide });
    assert_eq!(worker.size(), wide);
    let replay = registry.attachment(id).unwrap().replay;
    assert_eq!(replay[1], published.events[0]);
    assert_eq!(replay[2], event);
}

#[test]
fn a_title_past_the_bound_is_ignored() {
    let titled = |length: usize| {
        let mut bytes = b"\x1b]0;".to_vec();
        bytes.extend(vec![b'x'; length]);
        bytes.push(7);
        bytes
    };
    let mut scanner = TitleScanner::new();
    assert_eq!(scanner.feed(&titled(MAX_TITLE_BYTES)), vec!["x".repeat(MAX_TITLE_BYTES)]);
    assert!(scanner.feed(&titled(MAX_TITLE_BYTES + 1)).is_empty());
    assert!(scanner.feed(&titled(4 * MAX_TITLE_BYTES)).is_empty());
    assert_eq!(scanner.feed(&titled(3)), vec!["xxx"]);
}

#[test]
fn a_tick_takes_only_so_many_commands() {
    let size = TerminalSize::new(80, 24);
    let mut worker = Worker::new(TerminalId::new(1), size, &fallback(), 0);
    worker.begin_tick();
    for _ in 0..MAX_COMMANDS_PER_TICK {
        assert!(worker.takes_command());
        worker.command(TerminalWorkerCommand::Attach, 0);
    }
    assert!(!worker.takes_command());
    assert_eq!(worker.poll_timeout(0), 0);
    worker.begin_tick();
    assert!(worker.takes_command());
}

#[test]
fn output_is_recorded_in_chunks_with_its_titles() {
    let size = TerminalSize::new(80, 24);
    let id = TerminalId::new(1);
    let mut registry = TerminalRegistry::new();
    registry.register(id, ReplayRing::new(size, 8 * 1024 * 1024)).unwrap();
    let mut worker = Worker::new(id, size, &fallback(), 0);
    let published = worker.publish_raw_output(&mut registry, b"\x1b]0;work\x07\x1b]0;work\x07hi");
    assert_eq!(published.titles, vec!["work"]);
    assert_eq!(published.events.len(), 1);
    assert_eq!(published.events[0].seq(), 2);
    let large = vec![b'z'; MAX_OUTPUT_EVENT_BYTES + 1];
    let published = worker.publish_raw_output(&mut registry, &large);
    assert_eq!(published.events.len(), 2);
    assert_eq!(published.events[0].output_bytes(), MAX_OUTPUT_EVENT_BYTES);
    assert_eq!(published.events[1].output_bytes(), 1);
}

#[test]
fn activity_and_probes_are_announced() {
    let size = TerminalSize::new(80, 24);
    let mut worker = Worker::new(TerminalId::new(1), size, &fallback(), 0);
    worker.begin_tick();
    let outcome = worker.settle(ProbeReply::Empty, false, 1);
    assert!(outcome.announce);
    assert!(!outcome.probe);
    assert!(worker.metadata().active);
    worker.begin_tick();
    let outcome = worker.settle(ProbeReply::Empty, false, 600 * MILLI);
    assert!(outcome.probe);
    worker.probing();
    assert!(!worker.may_probe());
    let answer = query_process_metadata(
        Some("vim".to_owned()),
        None,
        Some(vec!["vim".to_owned()]),
        &fallback(),
    );
    assert_eq!(answer.process_name, "vim");
    assert_eq!(answer.cwd, "/home");
    worker.begin_tick();
    let outcome = worker.settle(ProbeReply::Metadata(answer), false, 700 * MILLI);
    assert!(outcome.announce);
    assert_eq!(worker.metadata().process_name, "vim");
    assert!(worker.may_probe());
    worker.begin_tick();
    let outcome = worker.settle(ProbeReply::Empty, true, 2_100 * MILLI);
    assert!(outcome.announce);
    assert!(!worker.metadata().active);
    assert!(!outcome.probe);
    worker.printed(2_200 * MILLI);
    assert!(worker.settle(ProbeReply::Closed, true, 2_200 * MILLI).announce);
    assert!(worker.metadata().active);
}

#[test]
fn the_reader_hands_over_whole_blocks() {
    let mut reader = PtyReader::new();
    assert!(reader.is_empty());
    let large = vec![b'x'; READER_BLOCK_BYTES + 10];
    assert_eq!(reader.fill(&large, 0), READER_BLOCK_BYTES);
    assert!(reader.is_full());
    let block = reader.hand_over(Vec::new());
    assert_eq!(block.len(), READER_BLOCK_BYTES);
    assert!(reader.is_empty());
    assert_eq!(reader.fill(&large[READER_BLOCK_BYTES..], MILLI), 10);
    assert!(!reader.is_full());
}

#[test]
fn process_reports_are_read() {
    assert_eq!(foreground_process_id(5, 9), Some(5));
    assert_eq!(foreground_process_id(-1, 9), Some(9));
    assert_eq!(reported_process_name("zsh\n"), Some("zsh".to_owned()));
    assert_eq!(reported_process_name(" \n"), None);
    assert_eq!(buffered_process_name(b"vim\0\0\0"), Some("vim".to_owned()));
    assert_eq!(buffered_process_name(b"\0\0"), None);
    assert_eq!(buffered_process_cwd(b"/tmp\0rest"), Some("/tmp".to_owned()));
    assert_eq!(
        parse_proc_cmdline(b"vim\0a b.txt\0"),
        Some(vec!["vim".to_owned(), "a b.txt".to_owned()])
    );
    assert_eq!(parse_proc_cmdline(b""), None);
    let long = vec![b'x'; 400];
    assert_eq!(cmdline_token(&long).len(), 256);
    let mut arguments = 2u32.to_le_bytes().to_vec();
    arguments.extend_from_slice(b"/bin/zsh\0\0\0zsh\0-l\0PATH=/bin\0");
    assert_eq!(
        parse_kern_procargs2(&arguments),
        Some(vec!["zsh".to_owned(), "-l".to_owned()])
    );
    // Fewer arguments than announced, none announced, no room for a count.
    assert_eq!(parse_kern_procargs2(&arguments[..19]), None);
    assert_eq!(parse_kern_procargs2(b"\0\0\0\0/bin/zsh\0zsh\0"), None);
    assert_eq!(parse_kern_procargs2(b"\x01\0"), None);
}

#[test]
fn only_the_children_are_killed() {
    // The foreground group differs from our own and is stable: it goes first.
    assert_eq!(
        kill_targets(10, 10, 20, 30, 30, 20),
        KillTargets { group: Some(30), child: Some(20) }
    );
    // Our own group is never a target.
    assert_eq!(kill_targets(10, 10, 20, 10, 10, 20), KillTargets { group: None, child: Some(20) });
    assert_eq!(kill_targets(10, 10, 10, -1, -1, 10), KillTargets { group: None, child: None });
    assert_eq!(kill_targets(10, 10, 20, -1, -1, 20), KillTargets { group: Some(20), child: Some(20) });
}

#[test]
fn output_before_a_resize_keeps_its_geometry() {
    let narrow = TerminalSize::new(80, 24);
    let wide = TerminalSize::new(100, 30);
    let id = TerminalId::new(1);
    let mut registry = TerminalRegistry::new();
    registry.register(id, ReplayRing::new(narrow, 8 * 1024 * 1024)).unwrap();
    let mut worker = Worker::new(id, narrow, &fallback(), 0);
    let before = worker.publish_raw_output(&mut registry, b"before");
    let resize = worker.resize(&mut registry, wide);
    let after = worker.publish_raw_output(&mut registry, b"after");
    let exit = worker.exit(&mut registry, Some(7));
    assert!(matches!(
        &before.events[0],
        TerminalStreamEvent::Output { seq: 2, size, .. } if *size == narrow
    ));
    assert_eq!(resize, TerminalStreamEvent::Resize { seq: 3, size: wide });
    assert!(matches!(
        &after.events[0],
        TerminalStreamEvent::Output { seq: 4, size, .. } if *size == wide
    ));
    assert_eq!(exit, TerminalStreamEvent::Exit { seq: 5, code: Some(7) });
    assert_eq!(registry.last_seq(id), Some(5));
    assert_eq!(registry.attachment(id).unwrap().replay.last(), Some(&exit));
}

#[test]
fn published_output_can_be_waited_for() {
    let size = TerminalSize::new(80, 24);
    let id = TerminalId::new(1);
    let mut registry = TerminalRegistry::new();
    // A ring this small keeps little more than its last event.
    registry.register(id, ReplayRing::new(size, 256)).unwrap();
    let mut worker = Worker::new(id, size, &fallback(), 0);
    worker.publish_raw_output(&mut registry, b"need");
    worker.publish_raw_output(&mut registry, b"le in a haystack");
    // The text spans two events: only the recent output shows it.
    assert!(matches!(
        registry.contains_text(id, "needle", 100, WaitProgress::Waiting),
        WaitStep::Done(_)
    ));
}

//! The application: connections, their terminals, and what windows show.
use std::collections::VecDeque;
use std::sync::Arc;

use water::ids::{ConnectionId, PaneId, TabId, TerminalId, WorkspaceId};
use water::terminal::emulator::TerminalEmulator;
use water::terminal::snapshot::{
    scrollback_row_bytes, TerminalSize, TerminalSnapshot, MAX_SCROLLBACK_LINES,
};
use water::terminal::stream::{encode_base64, TerminalStreamEvent, WireTerminalEvent};
use water::terminal::TerminalTheme;
use water::ui::application::WaterApplication;
use water::ui::attachment::{
    apply_emulator_commands, publish_control, publish_replay_progress, AttachmentWorker,
    ControlStep, Publication, ReplayStep, SendReply,
};
use water::ui::bindings::{
    application_menus, configured_window_key_bindings, shortcut_matches,
    shortcut_matches_or_default, MenuEntry, ShortcutText, WindowAction, WindowShortcuts,
};
use water::ui::connections::{
    vanished_terminals, ConnectStep, Connections, InstallStep, RemoteConnectionSetup, Tunnel,
    WorkspaceConnectionKind, SNAPSHOT_MIN_INTERVAL,
};
use water::ui::control::{
    app_identity, click_count, control_result, controlled_window, keeps_settings_window,
    screenshot_path, ControlReply,
};
use water::ui::events::{
    merge_terminal_snapshot, recv_terminal_event_batch, TerminalAttachmentState,
    TerminalEventKind, TerminalEventMsg, TerminalSnapshotStore, MAX_TERMINAL_BYTES_PER_UI_TURN,
};
use water::ui::keystroke::{Keystroke, Modifiers};
use water::ui::notifications::notify_agent_transitions;
use water::ui::plane::{
    AttachPlan, CellSizeStep, TerminalConnection, TerminalEmulatorCommand,
};
use water::ui::tree::{
    scale_scrollback_lines, terminal_ids_in_snapshot, terminal_scrollback_lines, AgentDump,
    LeafTerminal, ModelSnapshot, PaneTreeDump, TabDump, TerminalStatus, WorkspaceDump,
};

fn message(id: u64, attachment: TerminalAttachmentState, kind: TerminalEventKind) -> TerminalEventMsg {
    TerminalEventMsg { terminal_id: TerminalId::new(id), attachment, kind }
}

fn output(seq: u64, bytes: &[u8]) -> TerminalStreamEvent {
    TerminalStreamEvent::Output {
        seq,
        size: TerminalSize::new(80, 24),
        bytes: Arc::from(bytes.to_vec()),
    }
}

/// A model with one workspace and one tab per terminal.
fn model(revision: u64, terminals: &[u64]) -> ModelSnapshot {
    let tabs = terminals
        .iter()
        .map(|id| TabDump {
            id: TabId::new(*id),
            title: format!("tab {id}"),
            tree: PaneTreeDump::Leaf {
                pane_id: PaneId::new(*id),
                terminal: Some(LeafTerminal {
                    terminal_id: TerminalId::new(*id),
                    size: TerminalSize::new(80, 24),
                }),
                snapshot: None,
            },
            active_pane: PaneId::new(*id),
        })
        .collect();
    ModelSnapshot {
        state_revision: revision,
        active_workspace: Some(WorkspaceId::new(1)),
        workspace: None,
        workspaces: vec![WorkspaceDump {
            id: WorkspaceId::new(1),
            title: "work".to_owned(),
            tabs,
            active_tab: terminals.first().map(|id| TabId::new(*id)),
        }],
        focused_pane: terminals.first().map(|id| PaneId::new(*id)),
        agents: Vec::new(),
    }
}

fn agent(active: bool, status: TerminalStatus) -> AgentDump {
    AgentDump {
        kind: 1,
        display_label: "Build agent".to_owned(),
        keeps_scrollback: true,
        active,
        terminal_id: TerminalId::new(900),
        cwd: "/tmp/project".to_owned(),
        status,
    }
}

#[test]
fn terminal_control_events_are_lossless_when_mailbox_is_full() {
    let attachment = TerminalAttachmentState::new(1);
    assert!(matches!(publish_control(attachment, SendReply::Sent), ControlStep::Published));
    // A full mailbox hands the event back, and it is tried again.
    let second = message(2, attachment, TerminalEventKind::Restart);
    let ControlStep::Retry(second) = publish_control(attachment, SendReply::Full(second)) else {
        panic!("a full mailbox must not lose the event")
    };
    assert_eq!(second.terminal_id(), TerminalId::new(2));
    assert!(matches!(second.kind, TerminalEventKind::Restart));
    assert!(matches!(publish_control(attachment, SendReply::Sent), ControlStep::Published));
}

#[test]
fn control_events_of_a_cancelled_attachment_are_dropped() {
    let mut attachment = TerminalAttachmentState::new(1);
    attachment.cancel();
    let event = message(2, attachment, TerminalEventKind::Restart);
    assert!(matches!(
        publish_control(attachment, SendReply::Full(event)),
        ControlStep::Dropped
    ));
    assert!(matches!(
        publish_control(TerminalAttachmentState::new(2), SendReply::Disconnected),
        ControlStep::Dropped
    ));
}

#[test]
fn agent_activity_transition_posts_a_water_system_notification() {
    let mut application = WaterApplication::new(model(0, &[]));
    let mut previous = model(1, &[]);
    previous.agents.push(agent(true, TerminalStatus::Running));
    let mut current = model(2, &[]);
    current.agents.push(agent(false, TerminalStatus::Running));

    let notifications = application.notify_agent_transitions(&previous, &current);
    assert_eq!(notifications.len(), 1);
    assert_eq!(notifications[0].title, "Agent finished");
    assert!(notifications[0].body.contains("Build agent"));
    assert!(notifications[0].body.contains("/tmp/project"));
}

#[test]
fn notifications_are_numbered_and_say_what_happened() {
    let mut previous = model(1, &[]);
    previous.agents.push(agent(true, TerminalStatus::Running));
    let mut idle = model(2, &[]);
    idle.agents.push(agent(false, TerminalStatus::Running));
    let (posted, number) = notify_agent_transitions(&previous, &idle, 4);
    assert_eq!(number, 5);
    assert_eq!(posted[0].tag, "water-agent-900-5");
    assert_eq!(posted[0].body, "Build agent is waiting for input \u{b7} /tmp/project");

    let gone = model(3, &[]);
    let (posted, number) = notify_agent_transitions(&previous, &gone, u64::MAX);
    assert_eq!(number, 1);
    assert_eq!(posted[0].body, "Build agent exited \u{b7} /tmp/project");

    let (posted, number) = notify_agent_transitions(&previous, &previous, 7);
    assert!(posted.is_empty());
    assert_eq!(number, 7);
}

#[test]
fn cancelled_snapshot_notifications_do_not_consume_the_ui_byte_budget() {
    let mut cancelled = TerminalAttachmentState::new(1);
    cancelled.cancel();
    let active = TerminalAttachmentState::new(2);
    let mut queue = VecDeque::new();
    queue.push_back(message(1, cancelled, TerminalEventKind::SnapshotReady));
    queue.push_back(message(2, active, TerminalEventKind::SnapshotReady));
    queue.push_back(message(3, active, TerminalEventKind::SnapshotReady));

    let (batch, pending) = recv_terminal_event_batch(&mut queue, None).unwrap();
    assert_eq!(batch.len(), 2);
    assert!(!batch[0].is_active());
    assert!(batch[1].is_active());
    assert_eq!(batch[0].ui_cost_bytes(), 0);
    assert_eq!(batch[1].ui_cost_bytes(), MAX_TERMINAL_BYTES_PER_UI_TURN);
    assert_eq!(
        pending.as_ref().map(TerminalEventMsg::terminal_id),
        Some(TerminalId::new(3))
    );
}

#[test]
fn what_a_turn_leaves_comes_first_in_the_next() {
    let active = TerminalAttachmentState::new(2);
    let mut queue = VecDeque::new();
    queue.push_back(message(2, active, TerminalEventKind::SnapshotReady));
    queue.push_back(message(3, active, TerminalEventKind::SnapshotReady));
    let (_, pending) = recv_terminal_event_batch(&mut queue, None).unwrap();
    let (batch, pending) = recv_terminal_event_batch(&mut queue, pending).unwrap();
    assert_eq!(batch[0].terminal_id(), TerminalId::new(3));
    assert!(pending.is_none());
    assert!(recv_terminal_event_batch(&mut queue, None).is_none());
}

#[test]
fn replay_progress_is_published_and_paced_before_emulator_handoff() {
    let terminal_id = TerminalId::new(5);
    let size = TerminalSize::new(80, 24);
    let attachment = TerminalAttachmentState::new(1);
    let mut store = TerminalSnapshotStore::new();
    let mut queue = VecDeque::new();
    let mut emulator = TerminalEmulator::new(terminal_id, size, 100);
    let rows: [&[u8]; 2] = [b"first replay row\r\n", b"second replay row\r\n"];
    for (at, row) in rows.iter().enumerate() {
        emulator.apply_batch(&[output(at as u64 + 1, row)]);
        let publication = publish_replay_progress(
            &mut store,
            terminal_id,
            attachment,
            Some(emulator.snapshot(None)),
        );
        assert_ne!(publication, Publication::Stopped);
        if publication == Publication::Announce {
            queue.push_back(message(5, attachment, TerminalEventKind::SnapshotReady));
        }
    }

    let (batch, pending) = recv_terminal_event_batch(&mut queue, None).unwrap();
    assert_eq!(batch.len(), 1);
    assert!(matches!(batch[0].kind, TerminalEventKind::SnapshotReady));
    let snapshot = store
        .take_snapshot(batch[0].terminal_id(), batch[0].attachment.id)
        .expect("latest replay snapshot");
    assert!(snapshot.visible_text().contains("second replay row"));
    assert!(pending.is_none(), "intermediate replay frames are coalesced");
}

#[test]
fn replay_can_advance_without_publishing_an_intermediate_snapshot() {
    let terminal_id = TerminalId::new(6);
    let size = TerminalSize::new(80, 24);
    let attachment = TerminalAttachmentState::new(1);
    let mut store = TerminalSnapshotStore::new();
    let mut emulator = TerminalEmulator::new(terminal_id, size, 100);
    emulator.apply_batch(&[output(1, b"coalesced replay row\r\n")]);
    assert_eq!(
        publish_replay_progress(&mut store, terminal_id, attachment, None),
        Publication::Quiet
    );
    assert_eq!(emulator.last_seq(), 1);
    assert!(store.take_snapshot(terminal_id, attachment.id).is_none());
}

#[test]
fn latest_snapshot_slot_preserves_the_final_state_when_ui_is_slow() {
    let terminal_id = TerminalId::new(7);
    let size = TerminalSize::new(80, 24);
    let attachment = TerminalAttachmentState::new(1);
    let mut store = TerminalSnapshotStore::new();
    let mut emulator = TerminalEmulator::new(terminal_id, size, 100);
    let mut wakeups = 0;

    for seq in 1..=10_000 {
        emulator.apply(&output(seq, &format!("seq {seq}\r\n").into_bytes()));
        let notify =
            store.publish_snapshot(terminal_id, attachment, Arc::new(emulator.snapshot(None)));
        if notify {
            wakeups += 1;
        }
    }

    assert_eq!(wakeups, 1);
    let snapshot = store.take_snapshot(terminal_id, attachment.id).expect("latest snapshot slot");
    assert!(snapshot.visible_text().contains("seq 10000"));
    assert!(store.take_snapshot(terminal_id, attachment.id).is_none());
}

#[test]
fn attach_snapshot_does_not_overwrite_live_snapshot_queued_before_ui_batch() {
    let terminal_id = TerminalId::new(8);
    let size = TerminalSize::new(80, 24);
    let mut emulator = TerminalEmulator::new(terminal_id, size, 100);
    let attached = Arc::new(emulator.snapshot(None));

    emulator.start_live();
    emulator.apply(&output(1, b"shell prompt\r\n"));
    let live = Arc::new(emulator.snapshot(None));

    let mut latest = Some(live.clone());
    merge_terminal_snapshot(&mut latest, attached.clone(), true);
    assert!(Arc::ptr_eq(latest.as_ref().unwrap(), &live));

    let mut fallback = None;
    merge_terminal_snapshot(&mut fallback, attached, true);
    assert!(fallback.is_some());

    merge_terminal_snapshot(&mut fallback, live.clone(), false);
    assert!(Arc::ptr_eq(fallback.as_ref().unwrap(), &live));
}

#[test]
fn scrollback_budget_scaling_preserves_line_units_and_bounds() {
    let row_80 = scrollback_row_bytes(80);
    let row_512 = scrollback_row_bytes(512);
    let total_bytes = 2_000usize
        .saturating_mul(row_80)
        .saturating_add(500usize.saturating_mul(row_512));
    let budget = 64 * 1024;
    let cases = [(2_000, 2_000usize * row_80), (500, 500usize * row_512)];

    for (requested, selected_bytes) in cases {
        let lines = scale_scrollback_lines(requested, selected_bytes, total_bytes, budget);
        assert!((1..=requested).contains(&lines));
        assert!(lines <= MAX_SCROLLBACK_LINES);
        assert!(lines.saturating_mul(selected_bytes / requested.max(1)) <= budget + row_512);
    }

    assert_eq!(scale_scrollback_lines(0, 0, 0, 0), 1);
    assert_eq!(
        scale_scrollback_lines(MAX_SCROLLBACK_LINES * 2, 1, 1, usize::MAX),
        MAX_SCROLLBACK_LINES
    );
}

#[test]
fn emulator_scroll_commands_are_applied_on_the_worker_owned_emulator() {
    let terminal_id = TerminalId::new(9);
    let size = TerminalSize::new(80, 24);
    let mut emulator = TerminalEmulator::new(terminal_id, size, 100);
    emulator.apply(&output(1, &[b'\n'; 40]));
    let commands = vec![TerminalEmulatorCommand::ScrollBy(1)];
    let (changed, cell_size) = apply_emulator_commands(&commands, &mut emulator);
    assert!(changed);
    assert_eq!(cell_size, None);
    assert_eq!(emulator.viewport_position(), 1);
}

#[test]
fn every_emulator_command_is_carried_out() {
    let size = TerminalSize::new(80, 24);
    let mut emulator = TerminalEmulator::new(TerminalId::new(9), size, 100);
    emulator.apply(&output(1, &[b'\n'; 60]));
    let commands = vec![
        TerminalEmulatorCommand::ScrollTo(5),
        TerminalEmulatorCommand::SetPinned(true),
        TerminalEmulatorCommand::SetScrollbackProtected(true),
        TerminalEmulatorCommand::SetCellSize { cell_width: 9, cell_height: 18 },
    ];
    let (changed, cell_size) = apply_emulator_commands(&commands, &mut emulator);
    assert!(changed);
    assert_eq!(cell_size, Some((9, 18)));
    assert_eq!(emulator.viewport_position(), 5);
    let (changed, _) = apply_emulator_commands(
        &vec![
            TerminalEmulatorCommand::SetPinned(false),
            TerminalEmulatorCommand::SetScrollbackLines(10),
        ],
        &mut emulator,
    );
    assert!(changed);
    assert_eq!(emulator.history_len(), 10);
    assert_eq!(apply_emulator_commands(&Vec::new(), &mut emulator), (false, None));
}

#[test]
fn menu_bar_exposes_quit_without_a_key_binding() {
    let menus = application_menus();
    assert_eq!(
        menus.iter().map(|menu| menu.name).collect::<Vec<_>>(),
        ["Water", "File", "View", "Window"]
    );
    assert!(menus[0].items.iter().any(|item| matches!(
        item,
        MenuEntry::Action { name, .. } if *name == "Quit Water"
    )));
    assert!(menus[0].items.iter().any(|item| matches!(
        item,
        MenuEntry::Action { name, .. } if *name == "Quit GUI and Server"
    )));
    assert!(configured_window_key_bindings(&shortcuts()).iter().all(|binding| {
        binding.action != WindowAction::QuitApplication
            && binding.action != WindowAction::QuitApplicationAndServer
    }));
}

#[test]
fn menu_bar_surfaces_workspace_and_sidebar_actions() {
    let menus = application_menus();
    let labels = menus
        .iter()
        .flat_map(|menu| menu.items.iter())
        .filter_map(|item| match item {
            MenuEntry::Action { name, .. } => Some(*name),
            MenuEntry::Separator | MenuEntry::Services { .. } => None,
        })
        .collect::<Vec<_>>();
    assert!(labels.contains(&"Settings…"));
    assert!(labels.contains(&"New Workspace"));
    assert!(labels.contains(&"Rename Workspace"));
    assert!(labels.contains(&"Rename Tab"));
    assert!(labels.contains(&"Toggle Sidebar"));
}

fn shortcut(text: &str) -> ShortcutText {
    ShortcutText { text: text.to_owned(), words_are_keystrokes: true }
}

fn shortcuts() -> WindowShortcuts {
    WindowShortcuts {
        open_settings: shortcut("cmd-,"),
        new_window: shortcut("cmd-n"),
        hide_window: shortcut("cmd-h"),
        minimize_window: shortcut("cmd-m"),
        ignore_quit: shortcut("cmd-q"),
        new_terminal_tab: shortcut("cmd-t"),
        new_workspace: shortcut("cmd-shift-n"),
        connect_remote: shortcut("cmd-shift-k"),
        toggle_sidebar: shortcut("cmd-b"),
        rename_workspace: shortcut("cmd-shift-r"),
        rename_tab: shortcut("cmd-r"),
        next_tab: shortcut("ctrl-tab"),
        previous_tab: shortcut("ctrl-shift-tab"),
        next_workspace: shortcut("cmd-]"),
        previous_workspace: shortcut("cmd-["),
        split_right: shortcut("cmd-d"),
        split_down: shortcut("cmd-shift-d"),
        switch_tab: (0..10).map(|digit| shortcut(&format!("cmd-{digit}"))).collect(),
    }
}

#[test]
fn a_shortcut_that_is_no_shortcut_falls_back() {
    let mut chosen = shortcuts();
    chosen.new_window = shortcut("ctrl-w");
    chosen.open_settings = ShortcutText { text: "nonsense".to_owned(), words_are_keystrokes: false };
    let bindings = configured_window_key_bindings(&chosen);
    let keys = |action: WindowAction| {
        bindings
            .iter()
            .find(|binding| binding.action == action)
            .map(|binding| binding.keys.clone())
    };
    assert_eq!(keys(WindowAction::NewWindow), Some("ctrl-w".to_owned()));
    assert_eq!(keys(WindowAction::OpenSettings), Some("cmd-,".to_owned()));
    assert_eq!(bindings.len(), 27);
}

fn key(name: &str, platform: bool) -> Keystroke {
    Keystroke {
        modifiers: Modifiers { platform, ..Modifiers::none() },
        key: name.to_owned(),
        key_char: None,
    }
}

#[test]
fn keystrokes_are_compared_with_their_shortcut() {
    assert!(shortcut_matches(Some(&key("q", true)), &key("q", true)));
    assert!(!shortcut_matches(Some(&key("q", true)), &key("q", false)));
    assert!(!shortcut_matches(None, &key("q", true)));
    // A broken shortcut leaves the default in force.
    let broken = ShortcutText { text: "??".to_owned(), words_are_keystrokes: false };
    let quit = key("q", true);
    assert!(shortcut_matches_or_default(&broken, None, Some(&quit), &key("q", true)));
    let other = key("w", true);
    assert!(!shortcut_matches_or_default(
        &shortcut("cmd-w"),
        Some(&other),
        Some(&quit),
        &key("q", true)
    ));
}

fn plane() -> TerminalConnection {
    TerminalConnection::new(2_000, 500, 64 * 1024 * 1024, TerminalTheme::default())
}

#[test]
fn a_terminal_is_attached_once_and_replaced_on_restart() {
    let mut plane = plane();
    let mut store = TerminalSnapshotStore::new();
    let model = model(1, &[1, 2]);
    let plan = plane.begin_attach(&model, TerminalId::new(1)).unwrap();
    assert_eq!(plan.scrollback_lines, 2_000);
    assert!(!plan.scrollback_protected);
    assert!(plane.begin_attach(&model, TerminalId::new(1)).is_none());
    let other = plane.begin_attach(&model, TerminalId::new(2)).unwrap();
    assert_eq!(other.scrollback_lines, 500);
    let (stopped, again) =
        plane.restart_terminal_attachment(&mut store, &model, TerminalId::new(1));
    assert_eq!(stopped, Some(plan.attachment));
    assert_ne!(again.unwrap().attachment, plan.attachment);
    let (known, stopped) = plane.detach_terminal(&mut store, TerminalId::new(2));
    assert!(known);
    assert_eq!(stopped, Some(other.attachment));
    assert_eq!(plane.detach_terminal(&mut store, TerminalId::new(2)), (false, None));
}

#[test]
fn a_turn_shows_the_latest_snapshot_and_forwards_writes() {
    let mut plane = plane();
    let mut store = TerminalSnapshotStore::new();
    let model = model(1, &[1]);
    let plan = plane.begin_attach(&model, TerminalId::new(1)).unwrap();
    let attachment = TerminalAttachmentState::new(plan.attachment);
    let mut latest = TerminalSnapshot::empty(TerminalId::new(1), TerminalSize::new(80, 24));
    latest.revision = 9;
    let first = Arc::new(TerminalSnapshot::empty(TerminalId::new(1), TerminalSize::new(80, 24)));
    store.publish_snapshot(TerminalId::new(1), attachment, Arc::new(latest));
    let turn = plane.apply_terminal_events(
        &mut store,
        vec![
            message(1, attachment, TerminalEventKind::Attached { snapshot: first }),
            message(1, attachment, TerminalEventKind::SnapshotReady),
            message(
                1,
                attachment,
                TerminalEventKind::PtyWrites { writes: vec![b"a".to_vec(), b"b".to_vec()] },
            ),
        ],
    );
    assert_eq!(turn.changed, vec![TerminalId::new(1)]);
    assert!(turn.resync.is_empty());
    assert_eq!(
        turn.writes,
        vec![
            (TerminalId::new(1), b"a".to_vec()),
            (TerminalId::new(1), b"b".to_vec())
        ]
    );
    assert_eq!(plane.terminal_snapshot(TerminalId::new(1)).unwrap().revision, 9);
}

#[test]
fn a_cell_size_is_told_once() {
    let mut plane = plane();
    let id = TerminalId::new(1);
    assert_eq!(plane.terminal_set_cell_size(id, 8, 16), CellSizeStep::NoEmulator);
    plane.begin_attach(&model(1, &[1]), id).unwrap();
    assert!(matches!(plane.terminal_set_cell_size(id, 8, 16), CellSizeStep::Send(_)));
    plane.cell_size_sent(id, 8, 16);
    assert_eq!(plane.terminal_set_cell_size(id, 8, 16), CellSizeStep::Known);
    assert_eq!(
        plane.terminal_scroll_by(id, 3),
        Some(TerminalEmulatorCommand::ScrollBy(3))
    );
    assert_eq!(plane.terminal_scroll_to(TerminalId::new(2), 3), None);
    assert_eq!(
        plane.terminal_set_viewport_pinned(id, true),
        Some(TerminalEmulatorCommand::SetPinned(true))
    );
}

#[test]
fn a_change_of_focus_changes_the_history_limits() {
    let mut plane = plane();
    let mut current = model(1, &[1, 2]);
    plane.begin_attach(&current, TerminalId::new(1)).unwrap();
    plane.begin_attach(&current, TerminalId::new(2)).unwrap();
    assert!(plane.sync_terminal_scrollback_protection(&current).is_empty());
    current.workspaces[0].active_tab = Some(TabId::new(2));
    current.focused_pane = Some(PaneId::new(2));
    let updates = plane.sync_terminal_scrollback_protection(&current);
    assert_eq!(updates.len(), 2);
    for update in updates {
        let lines = if update.terminal_id == TerminalId::new(2) { 2_000 } else { 500 };
        assert_eq!(update.lines, lines);
        plane.scrollback_sent(update);
    }
    assert!(plane.sync_terminal_scrollback_protection(&current).is_empty());
    assert_eq!(
        terminal_scrollback_lines(&current, TerminalId::new(2), 2_000, 500, 64 * 1024 * 1024),
        2_000
    );
}

#[test]
fn the_histories_together_stay_within_the_budget() {
    let current = model(1, &[1, 2, 3]);
    let row = scrollback_row_bytes(80);
    let budget = 300 * row + 7;
    let lines: Vec<usize> = (1..=3)
        .map(|id| terminal_scrollback_lines(&current, TerminalId::new(id), 2_000, 500, budget))
        .collect();
    assert_eq!(lines, vec![200, 50, 50]);
    assert!(lines.iter().map(|lines| lines * row).sum::<usize>() <= budget);
}

fn plan() -> AttachPlan {
    AttachPlan {
        attachment: 1,
        scrollback_lines: 100,
        scrollback_protected: false,
        theme: TerminalTheme::default(),
    }
}

#[test]
fn a_replay_goes_live() {
    let id = TerminalId::new(3);
    let mut worker = AttachmentWorker::new(id, TerminalSize::new(80, 24), plan(), 0);
    let wire = WireTerminalEvent::Output { seq: 1, bytes: encode_base64(b"history\r\n") };
    assert!(matches!(worker.replay(&wire, 1), ReplayStep::Collecting));
    assert!(matches!(worker.finish_replay(), ReplayStep::Advanced { .. }));
    let attached = worker.start_live(2).unwrap();
    assert!(attached.visible_text().contains("history"));
    assert!(!worker.live_event(&output(2, b"live\r\n")));
    let publication = worker.after_event(false, 20_000_000).unwrap();
    assert!(publication.snapshot.unwrap().visible_text().contains("live"));
    assert!(publication.writes.is_empty());
    assert!(worker.idle(40_000_000).is_none());
    // A gap in the stream asks for a new replay.
    assert!(worker.live_event(&output(9, b"later")));
}

#[test]
fn commands_are_shown_at_the_next_pause() {
    let id = TerminalId::new(3);
    let mut worker = AttachmentWorker::new(id, TerminalSize::new(80, 24), plan(), 0);
    worker.start_live(2).unwrap();
    assert!(!worker.live_event(&output(1, &[b'\n'; 60])));
    worker.after_event(false, 20_000_000).unwrap();
    let cell_size = worker.take_commands(&vec![
        TerminalEmulatorCommand::ScrollBy(2),
        TerminalEmulatorCommand::SetCellSize { cell_width: 7, cell_height: 15 },
    ]);
    assert_eq!(cell_size, Some((7, 15)));
    let publication = worker.idle(60_000_000).unwrap();
    assert_eq!(publication.snapshot.unwrap().viewport_position, 2);
}

fn setup(destination: &str) -> RemoteConnectionSetup {
    RemoteConnectionSetup {
        destination: destination.to_owned(),
        snapshot: model(1, &[]),
        tunnel: Tunnel {
            destination: destination.to_owned(),
            remote_socket: "/run/remote.sock".to_owned(),
        },
        local_socket: "/tmp/local.sock".to_owned(),
        terminal: None,
    }
}

#[test]
fn a_remote_is_connected_once() {
    let mut connections = Connections::new(model(1, &[]));
    connections.set_local_socket("/tmp/water.sock".to_owned());
    assert!(matches!(connections.connect_remote("host", true), ConnectStep::Connect));
    let (id, fresh) = connections.register_remote_connection(setup("host"));
    assert!(fresh);
    assert!(matches!(
        connections.connect_remote("host", true),
        ConnectStep::Existing(existing) if existing == id
    ));
    let (again, fresh) = connections.register_remote_connection(setup("host"));
    assert_eq!(again, id);
    assert!(!fresh);
    let infos = connections.connection_list();
    assert_eq!(infos.len(), 2);
    assert_eq!(infos[0].kind, "local");
    assert_eq!(infos[0].name, "Local");
    assert_eq!(infos[0].socket_path.as_deref(), Some("/tmp/water.sock"));
    assert_eq!(infos[1].kind, "remote");
    assert_eq!(infos[1].destination.as_deref(), Some("host"));
    assert_eq!(infos[1].remote_socket_path.as_deref(), Some("/run/remote.sock"));
    assert!(connections.remove_remote_connection(connections.first_connection()).is_none());
    assert!(connections.remove_remote_connection(id).is_some());
    assert_eq!(connections.connection_list().len(), 1);
}

#[test]
fn new_connections_have_random_ids() {
    let mut connections = Connections::new(model(1, &[]));
    let (first, _) = connections.register_remote_connection(setup("one"));
    let (second, _) = connections.register_remote_connection(setup("two"));
    assert_ne!(first, second);
    assert_eq!(uuid::Uuid::from_u128(first.value).get_version_num(), 4);
}

#[test]
fn a_remote_needs_the_control_channel() {
    let connections = Connections::new(model(1, &[]));
    assert!(matches!(connections.connect_remote("host", false), ConnectStep::Refused(_)));
}

#[test]
fn the_startup_connection_can_be_remote() {
    let mut connections = Connections::new(model(1, &[]));
    connections.set_initial_remote_connection(
        "box".to_owned(),
        Tunnel { destination: "box".to_owned(), remote_socket: "/r".to_owned() },
        "/l".to_owned(),
    );
    assert_eq!(connections.list[0].kind, WorkspaceConnectionKind::Remote);
    assert_eq!(connections.list[0].title, "box");
    assert!(connections.find_remote("box").is_some());
}

#[test]
fn projections_are_paced_and_never_go_back() {
    let mut connections = Connections::new(model(1, &[1, 2]));
    let id = connections.first_connection();
    assert_eq!(connections.snapshot_wait(id, 5), Some(0));
    let InstallStep::Installed { previous } = connections.install_snapshot(id, model(3, &[2]), 5)
    else {
        panic!("a newer projection is installed")
    };
    assert_eq!(vanished_terminals(&previous, &connections.list[0].snapshot), vec![TerminalId::new(1)]);
    assert_eq!(connections.snapshot_wait(id, 5), Some(SNAPSHOT_MIN_INTERVAL));
    assert!(matches!(connections.install_snapshot(id, model(2, &[]), 9), InstallStep::Stale));
    assert_eq!(connections.list[0].snapshot.state_revision, 3);
    assert!(matches!(
        connections.install_snapshot(ConnectionId::new(99), model(9, &[]), 9),
        InstallStep::Gone
    ));
    assert_eq!(connections.snapshot_wait(ConnectionId::new(99), 5), None);
}

#[test]
fn an_application_routes_to_its_connections() {
    let mut application = WaterApplication::new(model(1, &[1]));
    let mut store = TerminalSnapshotStore::new();
    let local = ConnectionId::new(1);
    let id = TerminalId::new(1);
    assert!(application.ensure_terminal_attached(local, id).is_none());
    assert!(application.set_terminal(local, plane()));
    let plan = application.ensure_terminal_attached(local, id).unwrap();
    assert!(application.ensure_terminal_attached(local, id).is_none());
    assert_eq!(
        application.attach_failed(local, &mut store, id),
        Some(plan.attachment)
    );
    let plan = application.ensure_terminal_attached(local, id).unwrap();
    let attachment = TerminalAttachmentState::new(plan.attachment);
    let turn = application
        .apply_terminal_events(
            local,
            &mut store,
            vec![message(1, attachment, TerminalEventKind::Restart)],
        )
        .unwrap();
    assert_eq!(turn.resync, vec![id]);
    let (stopped, again) = application.restart_terminal_attachment(local, &mut store, id);
    assert_eq!(stopped, Some(plan.attachment));
    assert!(again.is_some());
    assert_eq!(
        application.terminal_scroll_by(local, id, -1),
        Some(TerminalEmulatorCommand::ScrollBy(-1))
    );
    assert!(application.detach_terminal(local, &mut store, id).0);
    assert!(application.terminal_snapshot(local, id).is_none());
    assert!(application.apply_terminal_events(ConnectionId::new(5), &mut store, Vec::new()).is_none());
    assert_eq!(terminal_ids_in_snapshot(&model(1, &[4, 5])), vec![TerminalId::new(4), TerminalId::new(5)]);
}

#[test]
fn requests_to_the_windows_are_answered() {
    assert_eq!(
        control_result::<u8>(ControlReply::NotSent),
        Err("UI control channel is unavailable".to_owned())
    );
    assert_eq!(
        control_result::<u8>(ControlReply::TimedOut),
        Err("timed out waiting for the GPUI thread".to_owned())
    );
    assert_eq!(control_result(ControlReply::Answered(Ok(3))), Ok(3));
    assert_eq!(controlled_window(Some(4), &vec![1], &vec![2]), Ok(4));
    assert_eq!(controlled_window(None, &vec![1, 5], &vec![2]), Ok(1));
    assert_eq!(controlled_window(None, &Vec::new(), &vec![2, 3]), Ok(3));
    assert_eq!(
        controlled_window(None, &Vec::new(), &Vec::new()),
        Err("Water has no open window".to_owned())
    );
    assert_eq!((click_count(0), click_count(3)), (1, 3));
    assert_eq!(screenshot_path("/tmp/shot"), "/tmp/shot.png");
    assert_eq!(screenshot_path("/tmp/shot.jpg"), "/tmp/shot.jpg");
    assert!(keeps_settings_window(true, false, true));
    assert!(!keeps_settings_window(true, false, false));
    assert!(!keeps_settings_window(false, true, true));
    assert_eq!(app_identity(true).name, "Water");
    assert_eq!(app_identity(false).identifier, "dev.water.terminal.dev");
}

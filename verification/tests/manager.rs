//! The terminals of a server.
use std::sync::Arc;

use water::ids::TerminalId;
use water::terminal::limits::TerminalLimits;
use water::terminal::manager::{
    process_name_from_program, TerminalManager, TerminalWorkerCommand, MAX_RETIRED_TERMINALS,
};
use water::terminal::registry::{TerminalError, WaitProgress, WaitStep};
use water::terminal::shell::{
    default_shell_args, default_shell_program, HOMEBREW_ZSH, INTEL_HOMEBREW_ZSH, SYSTEM_ZSH,
};
use water::terminal::snapshot::{
    TerminalProcessState, TerminalSize, DEFAULT_SCROLLBACK_LINES, MAX_SCROLLBACK_LINES,
    MIN_MAX_TOTAL_SCROLLBACK_BYTES, MIN_REPLAY_HISTORY_BYTES,
};

#[test]
fn zsh_defaults_to_login_mode() {
    assert_eq!(default_shell_args(HOMEBREW_ZSH), vec!["-l"]);
    assert_eq!(default_shell_args(SYSTEM_ZSH), vec!["-l"]);
}

#[test]
fn other_shells_start_plain() {
    assert!(default_shell_args("/bin/bash").is_empty());
    assert!(default_shell_args("/").is_empty());
    assert_eq!(default_shell_args("zsh"), vec!["-l"]);
}

#[test]
fn the_first_shell_that_is_installed_is_taken() {
    let configured = Some("/usr/bin/fish".to_owned());
    assert_eq!(default_shell_program(configured, true, true, true), "/usr/bin/fish");
    assert_eq!(default_shell_program(Some(String::new()), true, true, true), HOMEBREW_ZSH);
    assert_eq!(default_shell_program(None, false, true, true), INTEL_HOMEBREW_ZSH);
    assert_eq!(default_shell_program(None, false, false, true), SYSTEM_ZSH);
    assert_eq!(default_shell_program(None, false, false, false), "zsh");
}

fn started(manager: &mut TerminalManager, id: u64) -> TerminalId {
    let id = TerminalId::new(id);
    manager.opened(id, TerminalSize::new(80, 24)).unwrap();
    manager.started(id);
    id
}

#[test]
fn a_start_is_planned() {
    let manager = TerminalManager::new();
    let plan = manager
        .spawn_with_working_directory(
            TerminalId::new(1),
            "/bin/zsh".to_owned(),
            vec!["-l".to_owned()],
            TerminalSize::new(100, 30),
            Some("/srv".to_owned()),
            Some("/home".to_owned()),
        )
        .unwrap();
    assert_eq!(plan.program, "/bin/zsh");
    assert_eq!(plan.args, vec!["-l"]);
    assert_eq!(plan.working_directory.as_deref(), Some("/srv"));
    assert_eq!((plan.window_columns, plan.window_lines), (100, 30));
    assert_eq!(plan.fallback_process_name, "zsh");
    assert_eq!(plan.fallback_cwd, "/srv");
    assert_eq!(plan.fallback_cmdline, vec!["/bin/zsh", "-l"]);
    let plan = manager
        .spawn(
            TerminalId::new(1),
            "sh".to_owned(),
            Vec::new(),
            TerminalSize::new(100, 30),
            None,
        )
        .unwrap();
    assert_eq!(plan.working_directory, None);
    assert_eq!(plan.fallback_cwd, ".");
}

#[test]
fn names_are_shown_without_their_path() {
    assert_eq!(process_name_from_program("/usr/bin/vim"), "vim");
    assert_eq!(process_name_from_program("-zsh"), "zsh");
    assert_eq!(process_name_from_program(""), "shell");
}

#[test]
fn an_id_is_used_once() {
    let mut manager = TerminalManager::new();
    let id = started(&mut manager, 1);
    assert_eq!(manager.terminal_count(), 1);
    let again = manager.spawn(id, "sh".to_owned(), Vec::new(), TerminalSize::new(80, 24), None);
    assert!(matches!(
        again,
        Err(TerminalError::SpawnFailed(reason)) if reason == "terminal ID 1 already exists"
    ));
}

#[test]
fn a_failed_start_leaves_nothing() {
    let mut manager = TerminalManager::new();
    let id = TerminalId::new(1);
    manager.opened(id, TerminalSize::new(80, 24)).unwrap();
    let error = manager.start_failed(id, "no worker".to_owned());
    assert_eq!(error.message(), "terminal spawn failed: no worker");
    assert_eq!(manager.registry().terminal_count(), 0);
}

#[test]
fn commands_go_to_running_terminals() {
    let mut manager = TerminalManager::new();
    let id = started(&mut manager, 1);
    assert!(matches!(
        manager.send_text(id, "ls\r".to_owned()),
        Ok(TerminalWorkerCommand::SendText(bytes)) if bytes == b"ls\r"
    ));
    assert!(matches!(
        manager.send_bytes(id, vec![3]),
        Ok(TerminalWorkerCommand::SendBytes(bytes)) if bytes == [3]
    ));
    assert!(matches!(
        manager.resize(id, TerminalSize::new(90, 20)),
        Ok(TerminalWorkerCommand::Resize(size)) if size == TerminalSize::new(90, 20)
    ));
    let missing = TerminalId::new(2);
    assert!(matches!(
        manager.send_text(missing, String::new()),
        Err(TerminalError::NotFound(_))
    ));
    manager.registry_mut().mark_exited(id, Some(0));
    assert!(matches!(
        manager.send_text(id, String::new()),
        Err(TerminalError::NotRunning(_))
    ));
}

#[test]
fn only_the_newest_closed_terminals_stay() {
    let mut manager = TerminalManager::new();
    let count = MAX_RETIRED_TERMINALS as u64 + 3;
    for id in 1..=count {
        let id = started(&mut manager, id);
        manager.registry_mut().push_output(
            id,
            TerminalSize::new(80, 24),
            Arc::from(b"output".to_vec()),
        );
        assert!(manager.stop_worker(id));
        assert!(!manager.stop_worker(id));
        manager.retire(id);
    }
    assert_eq!(manager.terminal_count(), 0);
    assert_eq!(manager.registry().terminal_count(), MAX_RETIRED_TERMINALS);
    assert!(manager.registry().replay(TerminalId::new(3)).is_err());
    assert!(manager.registry().replay(TerminalId::new(4)).is_ok());
    manager.remove(TerminalId::new(4));
    assert!(manager.registry().replay(TerminalId::new(4)).is_err());
}

fn prints(manager: &mut TerminalManager, id: TerminalId, bytes: &[u8]) {
    let size = TerminalSize::new(80, 24);
    manager.registry_mut().push_output(id, size, Arc::from(bytes.to_vec()));
}

#[test]
fn a_text_is_found_though_its_terminal_has_gone() {
    let mut manager = TerminalManager::new();
    let id = started(&mut manager, 1);
    let number = manager.start_wait(id).unwrap();
    assert!(matches!(
        manager.contains_text(number, "needle", 250, WaitProgress::Waiting),
        Some(WaitStep::Wait)
    ));
    prints(&mut manager, id, b"a needle");
    manager.remove(id);
    let Some(WaitStep::Done(replay)) =
        manager.contains_text(number, "needle", 250, WaitProgress::Waiting)
    else {
        panic!("the text was printed")
    };
    assert_eq!(replay.terminal_id, id);
    assert!(matches!(
        manager.contains_text(number, "other", 250, WaitProgress::Waiting),
        Some(WaitStep::Wait)
    ));
    assert!(matches!(
        manager.contains_text(number, "other", 250, WaitProgress::Expired),
        Some(WaitStep::Failed(TerminalError::Timeout(250)))
    ));
    assert!(matches!(manager.start_wait(id), Err(TerminalError::NotFound(_))));
}

#[test]
fn an_exit_is_seen_though_its_terminal_has_gone() {
    let mut manager = TerminalManager::new();
    let id = started(&mut manager, 1);
    let number = manager.start_wait(id).unwrap();
    manager.registry_mut().mark_exited(id, Some(2));
    manager.remove(id);
    let Some(WaitStep::Done(replay)) =
        manager.wait_process_exit(number, 250, WaitProgress::Expired)
    else {
        panic!("the process has exited")
    };
    assert!(matches!(replay.process, TerminalProcessState::Exited { code: Some(2) }));
}

#[test]
fn a_process_that_runs_on_is_waited_for_in_vain() {
    let mut manager = TerminalManager::new();
    let id = started(&mut manager, 1);
    let number = manager.start_wait(id).unwrap();
    manager.remove(id);
    assert!(matches!(
        manager.wait_process_exit(number, 250, WaitProgress::Waiting),
        Some(WaitStep::Wait)
    ));
    assert!(matches!(
        manager.wait_process_exit(number, 250, WaitProgress::TimedOut),
        Some(WaitStep::Failed(TerminalError::Timeout(250)))
    ));
}

#[test]
fn a_waiter_outlives_the_terminals_that_stay_closed() {
    let mut manager = TerminalManager::new();
    let first = started(&mut manager, 1);
    let number = manager.start_wait(first).unwrap();
    prints(&mut manager, first, b"needle");
    for id in 1..=MAX_RETIRED_TERMINALS as u64 + 1 {
        let id = if id == 1 { first } else { started(&mut manager, id) };
        assert!(manager.stop_worker(id));
        manager.retire(id);
    }
    assert!(manager.registry().replay(first).is_err());
    assert!(matches!(
        manager.contains_text(number, "needle", 250, WaitProgress::Waiting),
        Some(WaitStep::Done(_))
    ));
}

#[test]
fn a_waiter_looks_at_the_terminal_it_came_for() {
    let mut manager = TerminalManager::new();
    let id = started(&mut manager, 1);
    let old = manager.start_wait(id).unwrap();
    prints(&mut manager, id, b"before");
    manager.remove(id);
    started(&mut manager, 1);
    let new = manager.start_wait(id).unwrap();
    assert_ne!(old, new);
    prints(&mut manager, id, b"after");
    let looks = |number: u64, needle: &str| {
        manager.contains_text(number, needle, 250, WaitProgress::Waiting)
    };
    assert!(matches!(looks(old, "before"), Some(WaitStep::Done(_))));
    assert!(matches!(looks(old, "after"), Some(WaitStep::Wait)));
    assert!(matches!(looks(new, "before"), Some(WaitStep::Wait)));
    assert!(matches!(looks(new, "after"), Some(WaitStep::Done(_))));
}

#[test]
fn nobody_looks_under_the_number_of_a_wait_that_ended() {
    let mut manager = TerminalManager::new();
    let id = started(&mut manager, 1);
    assert_eq!(manager.start_wait(id).unwrap(), 0);
    assert_eq!(manager.start_wait(id).unwrap(), 1);
    manager.end_wait(0);
    assert!(manager.contains_text(0, "", 1, WaitProgress::Waiting).is_none());
    assert!(manager.wait_process_exit(0, 1, WaitProgress::Waiting).is_none());
    assert!(manager.wait_process_exit(1, 1, WaitProgress::Waiting).is_some());
    assert_eq!(manager.start_wait(id).unwrap(), 0);
}

#[test]
fn a_shutdown_stops_every_worker() {
    let mut manager = TerminalManager::new();
    started(&mut manager, 2);
    started(&mut manager, 1);
    let mut stopped = manager.shutdown_all();
    stopped.sort();
    assert_eq!(stopped, vec![TerminalId::new(1), TerminalId::new(2)]);
    assert!(manager.running().is_empty());
    assert_eq!(manager.terminal_count(), 0);
}

#[test]
fn limits_are_brought_into_range() {
    let limits = TerminalLimits {
        scrollback_lines: 0,
        inactive_scrollback_lines: 1_000_000,
        max_total_scrollback_bytes: 1,
        replay_history_bytes: 0,
    }
    .normalized();
    assert_eq!(limits.scrollback_lines, 1);
    assert!(limits.inactive_scrollback_lines <= MAX_SCROLLBACK_LINES);
    assert_eq!(limits.max_total_scrollback_bytes, MIN_MAX_TOTAL_SCROLLBACK_BYTES);
    assert_eq!(limits.replay_history_bytes, MIN_REPLAY_HISTORY_BYTES);
    assert_eq!(limits.normalized(), limits);
    assert_eq!(TerminalLimits::default().scrollback_lines, DEFAULT_SCROLLBACK_LINES);
    let manager = TerminalManager::new_with_scrollback(77);
    assert_eq!(manager.scrollback_lines(), 77);
}

use pumpkin::gui::console::{shift_selection, ConsoleDocument, MAX_ROWS, MAX_TEXT_BYTES};
use pumpkin::gui::history::{CommandHistory, HISTORY_CAPACITY};
use pumpkin::gui::state::{
    capture_console_reply, contains_id, list_players, operator_ids, GuiHandle, OnlinePlayer,
    Operator, ServerInfo, TickRates, MAX_COMMANDS, MAX_COMMAND_BYTES, MAX_LOG_LINES, MAX_UPDATE_LOGS,
};
use pumpkin::gui::text::{
    bounded_prefix, sanitize_log_text, sanitize_single_line, trim_text, LimitedText,
    LogVisitor, MAX_EVENT_BYTES, MAX_LOG_BYTES,
};
use pumpkin::gui::types::{
    has_stopped, push_bounded, GuiPlayer, Level, LogLine, ServerSnapshot, ServerStatus,
    MEMORY_HISTORY_CAPACITY,
};
use std::collections::VecDeque;

const SECOND: u128 = 1_000_000_000;

fn info(use_console: bool) -> ServerInfo {
    ServerInfo {
        world_name: "world".to_owned(),
        java_enabled: true,
        java_address: "0.0.0.0:25565".to_owned(),
        java_max_players: 20,
        bedrock_enabled: true,
        nethernet_enabled: true,
        nethernet_address: "0.0.0.0:19132".to_owned(),
        bedrock_max_players: 10,
        target_tps_bits: 20.0f64.to_bits(),
        use_console,
    }
}

fn running_handle() -> GuiHandle {
    let mut handle = GuiHandle::new();
    assert!(handle.attach_server(&info(true), false));
    handle
}

fn running_snapshot() -> ServerSnapshot {
    running_handle().snapshot(0)
}

fn alex(is_op: bool) -> GuiPlayer {
    GuiPlayer {
        id: 1,
        name: "Alex".to_owned(),
        edition: "Java".to_owned(),
        is_op,
    }
}

#[test]
fn commands_are_not_repeated_in_a_row() {
    let mut history = CommandHistory::default();
    let mut shown = "draft".to_owned();
    for command in ["a", "a", "b", "a", "a", "c", "c", "c"] {
        history.record(command.to_owned());
        history.previous(&mut shown);
        history.previous(&mut shown);
        history.next(&mut shown);
    }
    assert_eq!(history.entries, ["a", "b", "a", "c"]);
}

#[test]
fn mod_command_history_restores_draft_and_stays_bounded() {
    let mut history = CommandHistory::default();
    for index in 0..HISTORY_CAPACITY + 2 {
        history.record(format!("say {index}"));
    }
    assert_eq!(history.entries.len(), HISTORY_CAPACITY);
    assert_eq!(history.entries.front().map(String::as_str), Some("say 2"));
    let mut command = "unfinished command".to_owned();
    history.previous(&mut command);
    assert_eq!(command, "say 65");
    history.previous(&mut command);
    assert_eq!(command, "say 64");
    history.next(&mut command);
    history.next(&mut command);
    assert_eq!(command, "unfinished command");
    history.next(&mut command);
    assert_eq!(command, "unfinished command");
    history.record("say 65".to_owned());
    assert_eq!(history.entries.len(), HISTORY_CAPACITY);
}

#[test]
fn native_gui_command_history_restores_draft_and_stays_bounded() {
    let mut history = CommandHistory::default();
    for index in 0..HISTORY_CAPACITY + 2 {
        history.record(format!("say {index}"));
    }
    assert_eq!(history.entries.len(), HISTORY_CAPACITY);
    assert_eq!(history.entries.front().map(String::as_str), Some("say 2"));
    let mut command = "unfinished command".to_owned();
    history.previous(&mut command);
    assert_eq!(command, "say 65");
    history.previous(&mut command);
    assert_eq!(command, "say 64");
    history.next(&mut command);
    history.next(&mut command);
    assert_eq!(command, "unfinished command");
    history.next(&mut command);
    assert_eq!(command, "unfinished command");
    history.record("say 65".to_owned());
    assert_eq!(history.entries.len(), HISTORY_CAPACITY);
}

#[test]
fn mod_bounded_buffers_keep_the_latest_values() {
    let mut values = VecDeque::new();
    for value in 0..10 {
        push_bounded(&mut values, value, 3);
    }
    assert_eq!(values, VecDeque::from([7, 8, 9]));
}

#[test]
fn native_gui_bounded_buffers_keep_the_latest_values() {
    let mut values = VecDeque::new();
    for value in 0..10 {
        push_bounded(&mut values, value, 3);
    }
    assert_eq!(values, VecDeque::from([7, 8, 9]));
}

#[test]
fn mod_close_waits_for_a_terminal_server_status() {
    assert!(!has_stopped(ServerStatus::Starting));
    assert!(!has_stopped(ServerStatus::Running));
    assert!(!has_stopped(ServerStatus::Stopping));
    assert!(has_stopped(ServerStatus::Stopped));
    assert!(has_stopped(ServerStatus::Failed));
}

#[test]
fn native_gui_close_waits_for_a_terminal_server_status() {
    assert!(!has_stopped(ServerStatus::Starting));
    assert!(!has_stopped(ServerStatus::Running));
    assert!(!has_stopped(ServerStatus::Stopping));
    assert!(has_stopped(ServerStatus::Stopped));
    assert!(has_stopped(ServerStatus::Failed));
}

#[test]
fn command_queue_is_bounded_and_validates_input() {
    let mut handle = running_handle();
    for invalid in ["", "  ", "say hello\nstop", "say hi\rstop", "say \0"] {
        assert!(handle.submit_command(invalid).is_err());
    }
    assert!(handle
        .submit_command(&"x".repeat(MAX_COMMAND_BYTES + 1))
        .is_err());
    for _ in 0..MAX_COMMANDS {
        handle.submit_command("  say hello  ").unwrap();
    }
    assert!(handle.submit_command("overflow").is_err());

    assert_eq!(handle.try_recv().unwrap(), "say hello");
    handle.submit_command("now there is room").unwrap();
    assert!(handle.submit_command("overflow again").is_err());
    for _ in 1..MAX_COMMANDS {
        assert_eq!(handle.try_recv().unwrap(), "say hello");
    }
    assert_eq!(handle.try_recv().unwrap(), "now there is room");
    assert!(handle.try_recv().is_none());
}

#[test]
fn refused_commands_say_why() {
    let mut starting = GuiHandle::new();
    assert_eq!(
        starting.submit_command("list").unwrap_err(),
        "The server is not accepting commands."
    );
    let mut silent = GuiHandle::new();
    assert!(silent.attach_server(&info(false), false));
    assert_eq!(
        silent.submit_command("list").unwrap_err(),
        "The server console is disabled in configuration."
    );
    let mut handle = running_handle();
    assert_eq!(
        handle
            .submit_command(&"x".repeat(MAX_COMMAND_BYTES + 1))
            .unwrap_err(),
        "Commands are limited to 4096 bytes."
    );
    assert_eq!(
        handle.submit_command("a\nb").unwrap_err(),
        "Enter one command at a time, without control characters."
    );
    assert_eq!(
        handle.submit_command(" \t ").unwrap_err(),
        "Enter a command first."
    );
    handle.submit_command("say\ttabbed").unwrap();
    for _ in 1..MAX_COMMANDS {
        handle.submit_command("list").unwrap();
    }
    assert_eq!(
        handle.submit_command("list").unwrap_err(),
        "The command queue is full; wait for pending commands."
    );
    handle.close_commands();
    assert_eq!(
        handle.submit_command("list").unwrap_err(),
        "The server is no longer accepting commands."
    );
    assert_eq!(handle.try_recv().unwrap(), "say\ttabbed");
}

#[test]
fn commands_require_running_enabled_console_and_connected_receiver() {
    let mut starting = GuiHandle::new();
    assert!(starting.submit_command("list").is_err());

    let mut running = GuiHandle::new_managed();
    let mut update = running_snapshot();
    update.commands_enabled = false;
    running.apply_backend_update(update, Vec::new());
    assert!(running.submit_command("list").is_err());
    running.apply_backend_update(running_snapshot(), Vec::new());
    running.close_commands();
    assert!(running.submit_command("list").is_err());
}

#[test]
fn shutdown_state_is_idempotent_without_cancelling_global_server() {
    let mut handle = running_handle();
    assert!(handle.begin_stop());
    assert!(!handle.begin_stop());
    assert_eq!(handle.snapshot(0).status, ServerStatus::Stopping);
    assert!(!handle.snapshot(0).commands_enabled);
    assert!(handle.submit_command("list").is_err());
    handle.finish(None, 0);
    assert_eq!(handle.snapshot(0).status, ServerStatus::Stopped);
    assert!(!handle.begin_stop());

    let mut failed = GuiHandle::new();
    failed.finish(Some("\x1b[31mstartup failed\x1b[0m".to_string()), 0);
    assert_eq!(failed.snapshot(0).status, ServerStatus::Failed);
    assert_eq!(
        failed.snapshot(0).last_error.as_deref(),
        Some("startup failed")
    );
    assert!(!failed.begin_stop());
    assert!(failed.drain_logs().is_empty());
}

#[test]
fn snapshots_are_owned_copies_and_finish_clears_online_state() {
    let mut handle = GuiHandle::new_managed();
    let mut update = running_snapshot();
    update.players.push(alex(true));
    update.tps_bits = 20.0f64.to_bits();
    update.record_memory_sample(1234);
    update.sample_id = 4;
    handle.apply_backend_update(update, Vec::new());

    let mut copy = handle.snapshot(0);
    assert!(copy.players[0].is_op);
    copy.players[0].is_op = false;
    assert!(handle.snapshot(0).players[0].is_op);
    copy.players.clear();
    copy.memory_history.clear();
    assert_eq!(handle.snapshot(0).players.len(), 1);
    assert_eq!(handle.snapshot(0).memory_history, VecDeque::from([1234]));
    handle.finish(None, 0);
    let finished = handle.snapshot(0);
    assert!(finished.players.is_empty());
    assert_eq!(f64::from_bits(finished.tps_bits), 0.0);
    assert_eq!(finished.sample_id, 4);
    assert_eq!(finished.memory_bytes, 1234);
    assert_eq!(finished.memory_history, VecDeque::from([1234]));
    assert!(!finished.commands_enabled);
}

#[test]
fn memory_history_retains_the_latest_256_samples_in_order_after_failure() {
    let mut handle = running_handle();
    assert!(handle.snapshot(0).memory_history.is_empty());
    for sample in 0..=300 {
        handle.update_snapshot(
            &Vec::new(),
            &Vec::new(),
            TickRates {
                target_tps_bits: 20.0f64.to_bits(),
                mspt_bits: 5.0f64.to_bits(),
                tps_bits: 20.0f64.to_bits(),
                frozen: false,
            },
            Some(sample),
            0,
        );
    }
    let snapshot = handle.snapshot(0);
    assert_eq!(snapshot.memory_bytes, 300);
    assert_eq!(snapshot.memory_history.len(), MEMORY_HISTORY_CAPACITY);
    assert!(snapshot.memory_history.iter().copied().eq(45..=300));
    handle.finish(Some("backend failed".to_string()), 0);
    let finished = handle.snapshot(0);
    assert_eq!(finished.status, ServerStatus::Failed);
    assert_eq!(finished.memory_bytes, 300);
    assert_eq!(finished.memory_history, snapshot.memory_history);
}

#[test]
fn log_backlog_drops_oldest_and_drains_once() {
    let mut handle = GuiHandle::new();
    for index in 0..MAX_LOG_LINES + 3 {
        handle.push_log(12, 34, 56, Level::Info, &format!("line {index}"));
    }
    let lines = handle.drain_logs();
    assert_eq!(lines.len(), MAX_LOG_LINES);
    assert_eq!(lines.first().unwrap().text, "line 3");
    assert_eq!(
        lines.last().unwrap().text,
        format!("line {}", MAX_LOG_LINES + 2)
    );
    assert!(!lines[0].timestamp.is_empty());
    assert_eq!(lines[0].timestamp, "12:34:56");
    assert!(handle.drain_logs().is_empty());
}

#[test]
fn log_sanitization_removes_terminal_sequences_and_bounds_utf8() {
    assert_eq!(
        sanitize_log_text("\x1b[31mred\x1b[0m\nline\tvalue\0"),
        "red\nline value"
    );
    assert_eq!(sanitize_log_text("a\x1b]0;hidden title\x07b"), "ab");
    assert_eq!(
        sanitize_log_text("a\x1b]8;;https://example.com\x1b\\link\x1b]8;;\x1b\\b"),
        "alinkb"
    );
    assert_eq!(sanitize_log_text("visible\x1b[31"), "visible");
    let bounded = sanitize_log_text(&"🍊".repeat(MAX_LOG_BYTES));
    assert_eq!(bounded.len(), MAX_EVENT_BYTES);
    assert!(bounded.chars().all(|c| c == '🍊'));
    assert_eq!(sanitize_single_line("red\nline\rvalue"), "red line value");
    assert_eq!(sanitize_single_line(&bounded).len(), MAX_LOG_BYTES);
}

#[test]
fn multiline_logs_are_ordered_rows_with_shared_metadata_and_bounded_budget() {
    let mut handle = GuiHandle::new();
    handle.push_log(
        1,
        2,
        3,
        Level::Error,
        "\x1b[31mfirst\x1b[0m\r\n    at frame\n\nlast",
    );
    let logs = handle.drain_logs();
    assert_eq!(
        logs.iter()
            .map(|line| line.text.as_str())
            .collect::<Vec<_>>(),
        ["first", "    at frame", "last"]
    );
    assert!(logs.iter().all(|line| {
        line.level == Level::Error
            && line.timestamp == logs[0].timestamp
            && !line.text.contains('\x1b')
            && !line.text.contains('\n')
    }));

    let row = format!("{}\n", "🍊".repeat(700));
    handle.push_log(1, 2, 3, Level::Info, &row.repeat(8));
    let logs = handle.drain_logs();
    assert!(logs.len() > 1);
    assert!(logs.len() <= MAX_LOG_LINES);
    assert!(logs.iter().all(|line| line.text.len() <= MAX_LOG_BYTES));
    assert!(logs.iter().map(|line| line.text.len()).sum::<usize>() <= MAX_EVENT_BYTES);
}

#[test]
fn console_replies_are_shown_where_there_is_a_window() {
    let mut gui = Some(GuiHandle::new());
    capture_console_reply(&mut gui, 7, 8, 9, "There are 0 players");
    let logs = gui.unwrap().drain_logs();
    assert_eq!(logs.len(), 1);
    assert_eq!(logs[0].text, "There are 0 players");
    assert_eq!(logs[0].timestamp, "07:08:09");
    assert_eq!(logs[0].level, Level::Info);
    let mut absent = None;
    capture_console_reply(&mut absent, 7, 8, 9, "unseen");
    assert!(absent.is_none());
}

#[test]
fn event_texts_are_bounded_while_they_are_written() {
    let mut text = LimitedText(String::new());
    text.write_str("player=Alex ");
    text.write_str(&"🍊".repeat(MAX_EVENT_BYTES));
    text.write_str("late");
    assert!(text.0.starts_with("player=Alex 🍊"));
    assert!(text.0.len() <= MAX_EVENT_BYTES);
    assert!(text.0.len() > MAX_EVENT_BYTES - 4);
    assert_eq!(bounded_prefix("hráč", 4), "hrá");
    assert_eq!(bounded_prefix("hráč", 5), "hrá");
    assert_eq!(bounded_prefix("hráč", 6), "hráč");
    assert_eq!(trim_text(" \u{3000}a b\u{2028} "), "a b");
}

#[test]
fn managed_restart_resets_session_state_after_draining_old_commands() {
    let mut handle = GuiHandle::new_managed();
    assert!(handle.take_command_receiver());
    assert!(!handle.take_command_receiver());
    assert_eq!(handle.desired_running(), Some(true));
    assert_eq!(handle.snapshot(5).uptime_nanos, 0);
    assert!(handle.request_start().is_err());

    let mut first = running_snapshot();
    first.players.push(alex(false));
    first.record_memory_sample(1234);
    first.uptime_nanos = 42 * SECOND;
    first.sample_id = 84;
    first.tps_bits = 19.0f64.to_bits();
    first.mspt_bits = 12.0f64.to_bits();
    first.target_tps_bits = 10.0f64.to_bits();
    first.tick_frozen = true;
    handle.apply_backend_update(first, Vec::new());
    assert_eq!(handle.snapshot(5).uptime_nanos, 42 * SECOND);
    handle.submit_command("old command").unwrap();

    handle.request_stop();
    assert_eq!(handle.desired_running(), Some(false));
    assert!(handle.submit_command("late old command").is_err());
    assert_eq!(handle.try_recv().unwrap(), "old command");
    assert!(handle.try_recv().is_none());
    handle.push_log(0, 0, 0, Level::Error, "first backend failed");
    handle.finish(Some("first backend failed".to_string()), 5);
    assert_eq!(handle.desired_running(), Some(false));
    assert_eq!(handle.snapshot(5).uptime_nanos, 42 * SECOND);
    assert_eq!(handle.snapshot(5).memory_history, VecDeque::from([1234]));

    handle.request_start().unwrap();
    assert_eq!(handle.desired_running(), Some(true));
    let second = handle.snapshot(5);
    assert_eq!(second.status, ServerStatus::Starting);
    assert!(second.players.is_empty());
    assert!(second.memory_history.is_empty());
    assert_eq!(second.memory_bytes, 0);
    assert_eq!(second.sample_id, 0);
    assert_eq!(second.uptime_nanos, 0);
    assert_eq!(f64::from_bits(second.tps_bits), 0.0);
    assert_eq!(f64::from_bits(second.mspt_bits), 0.0);
    assert_eq!(f64::from_bits(second.target_tps_bits), 20.0);
    assert!(!second.tick_frozen);
    assert!(second.last_error.is_none());
    assert!(!second.commands_enabled);
    assert!(handle.submit_command("too early").is_err());
    assert!(handle.request_start().is_err());
    let logs = handle.drain_logs();
    assert_eq!(logs.len(), 1);
    assert_eq!(logs[0].text, "first backend failed");

    handle.apply_backend_update(running_snapshot(), Vec::new());
    handle.submit_command("new command").unwrap();
    assert_eq!(handle.try_recv().unwrap(), "new command");
    assert!(handle.try_recv().is_none());
    handle.request_stop();
    handle.finish(None, 5);
    assert_eq!(handle.snapshot(5).status, ServerStatus::Stopped);
    assert_eq!(handle.desired_running(), Some(false));
    handle.request_start().unwrap();
    assert_eq!(handle.desired_running(), Some(true));
}

#[test]
fn managed_terminal_updates_wait_for_reaping_and_cannot_undo_stop() {
    for terminal in [ServerStatus::Stopped, ServerStatus::Failed] {
        let mut handle = GuiHandle::new_managed();
        let mut update = running_snapshot();
        update.status = terminal;
        update.uptime_nanos = 17 * SECOND;
        handle.apply_backend_update(update, Vec::new());
        assert_eq!(handle.snapshot(0).status, ServerStatus::Stopping);
        assert!(!handle.snapshot(0).commands_enabled);
        assert!(handle.request_start().is_err());
        assert!(handle.submit_command("list").is_err());

        handle.apply_backend_update(running_snapshot(), Vec::new());
        assert_eq!(handle.snapshot(0).status, ServerStatus::Stopping);
        assert!(!handle.snapshot(0).commands_enabled);
        handle.finish(None, 0);
        handle.apply_backend_update(running_snapshot(), Vec::new());
        assert_eq!(handle.snapshot(0).status, ServerStatus::Stopped);
    }

    let mut handle = GuiHandle::new_managed();
    handle.request_stop();
    handle.apply_backend_update(running_snapshot(), Vec::new());
    assert_eq!(handle.snapshot(0).status, ServerStatus::Stopping);
    assert!(!handle.snapshot(0).commands_enabled);
}

#[test]
fn restart_rejects_a_missing_supervisor_and_preserves_terminal_details() {
    for error in [None, Some("supervisor wait failed".to_string())] {
        let mut handle = GuiHandle::new_managed();
        let mut update = running_snapshot();
        update.record_memory_sample(4096);
        update.uptime_nanos = 12 * SECOND;
        handle.apply_backend_update(update, Vec::new());
        handle.drop_supervisor();
        handle.finish(error, 0);
        let before = format!("{:?}", handle.snapshot(0));

        assert!(handle.request_start().unwrap_err().contains("supervisor"));
        assert_eq!(format!("{:?}", handle.snapshot(0)), before);
        assert_eq!(handle.desired_running(), Some(false));
        assert!(handle.submit_command("list").is_err());
    }
}

#[test]
fn window_close_requests_stop_and_prevents_restart_without_global_cancellation() {
    let mut handle = GuiHandle::new_managed();
    assert!(!handle.close_requested());
    assert!(!handle.request_close());
    assert!(handle.close_requested());
    assert_eq!(handle.desired_running(), Some(false));
    assert_eq!(handle.snapshot(0).status, ServerStatus::Stopping);
    handle.request_close();
    handle.finish(None, 0);
    assert_eq!(
        handle.request_start().unwrap_err(),
        "The server window is closing."
    );
    assert_eq!(handle.desired_running(), Some(false));

    let mut local = GuiHandle::new();
    local.finish(None, 0);
    assert_eq!(
        local.request_start().unwrap_err(),
        "This server instance cannot be restarted in place."
    );
}

#[test]
fn the_server_of_this_process_is_told_to_stop_once() {
    let mut handle = running_handle();
    assert!(handle.request_stop());
    assert!(!handle.request_stop());
    let mut managed = GuiHandle::new_managed();
    assert!(!managed.request_stop());
}

#[test]
fn backend_updates_drain_at_most_64_log_rows_in_order() {
    let mut handle = GuiHandle::new();
    for index in 0..MAX_UPDATE_LOGS + 3 {
        handle.push_log(0, 0, 0, Level::Info, &format!("line {index}"));
    }
    let (_, first) = handle.backend_update(0);
    assert_eq!(first.len(), MAX_UPDATE_LOGS);
    assert_eq!(first[0].text, "line 0");
    assert_eq!(first.last().unwrap().text, "line 63");
    let (_, next) = handle.backend_update(0);
    assert_eq!(next.len(), 3);
    assert_eq!(next[0].text, "line 64");
    assert!(handle.backend_update(0).1.is_empty());
}

#[test]
fn mirrored_logs_and_memory_history_remain_bounded_and_sanitized() {
    let mut handle = GuiHandle::new_managed();
    let mut update = running_snapshot();
    update.memory_history = (0..300).collect();
    let log = LogLine {
        timestamp: "\x1b[31m12:34:56\x1b[0m".to_string(),
        level: Level::Warn,
        text: format!("\x1b[31m{}\x1b[0m", "x".repeat(MAX_LOG_BYTES + 1)),
    };
    for _ in 0..=(MAX_LOG_LINES / MAX_UPDATE_LOGS) {
        handle.apply_backend_update(update.clone(), vec![log.clone(); MAX_UPDATE_LOGS]);
    }
    let snapshot = handle.snapshot(0);
    assert_eq!(snapshot.memory_history.len(), MEMORY_HISTORY_CAPACITY);
    assert!(snapshot.memory_history.iter().copied().eq(44..300));
    let logs = handle.drain_logs();
    assert_eq!(logs.len(), MAX_LOG_LINES);
    assert!(logs.iter().all(|line| {
        line.timestamp == "12:34:56"
            && line.level == Level::Warn
            && line.text.len() == MAX_LOG_BYTES
            && !line.text.contains('\x1b')
    }));
}

fn online(id: u128, name: &str, bedrock: bool) -> OnlinePlayer {
    OnlinePlayer {
        id,
        name: name.to_owned(),
        bedrock,
    }
}

#[test]
fn operators_are_known_by_id_and_players_are_listed_in_order() {
    let players = list_players(
        &vec![
            online(3, "steve", true),
            online(2, "Alex", false),
            online(1, "alex", false),
            online(4, "Two\nLines", false),
        ],
        &vec![4, 1],
    );
    let rows: Vec<_> = players
        .iter()
        .map(|p| (p.id, p.name.as_str(), p.edition.as_str(), p.is_op))
        .collect();
    assert_eq!(
        rows,
        [
            (2, "Alex", "Java", false),
            (4, "Two Lines", "Java", true),
            (1, "alex", "Java", true),
            (3, "steve", "Bedrock", false),
        ]
    );
    assert!(contains_id(&vec![1, 2], 2));
    assert!(!contains_id(&vec![], 2));
}

#[test]
fn a_server_that_comes_up_is_shown() {
    let mut handle = GuiHandle::new();
    assert!(handle.attach_server(&info(true), false));
    assert!(!handle.attach_server(&info(true), false));
    let snapshot = handle.snapshot(7);
    assert_eq!(snapshot.status, ServerStatus::Running);
    assert_eq!(snapshot.world_name, "world");
    assert_eq!(snapshot.java_address.as_deref(), Some("0.0.0.0:25565"));
    assert_eq!(snapshot.bedrock_address.as_deref(), Some("0.0.0.0:19132"));
    assert_eq!(snapshot.max_players, 20);
    assert_eq!(snapshot.uptime_nanos, 7);
    assert!(snapshot.commands_enabled);

    let mut bedrock = info(true);
    bedrock.java_enabled = false;
    bedrock.nethernet_enabled = false;
    let mut handle = GuiHandle::new();
    assert!(handle.attach_server(&bedrock, true));
    let snapshot = handle.snapshot(0);
    assert_eq!(snapshot.status, ServerStatus::Stopping);
    assert_eq!(snapshot.java_address, None);
    assert_eq!(snapshot.bedrock_address, None);
    assert_eq!(snapshot.max_players, 10);
    assert!(!snapshot.commands_enabled);

    let mut late = GuiHandle::new();
    late.finish(None, 0);
    assert!(!late.attach_server(&info(true), false));
    assert_eq!(late.snapshot(0).status, ServerStatus::Stopped);
}

#[test]
fn commands_are_echoed_before_they_run() {
    let mut handle = running_handle();
    assert!(handle.echo_command(1, 2, 3, "list"));
    let logs = handle.drain_logs();
    assert_eq!(logs[0].text, "> list");
    assert_eq!(logs[0].timestamp, "01:02:03");
    let mut starting = GuiHandle::new();
    assert!(!starting.echo_command(1, 2, 3, "list"));
    assert!(starting.drain_logs().is_empty());
}

fn line(text: &str) -> LogLine {
    LogLine {
        timestamp: "12:34:56".to_owned(),
        level: Level::Info,
        text: text.to_owned(),
    }
}

#[test]
fn trimming_keeps_row_and_byte_limits_and_counts_what_went() {
    let mut document = ConsoleDocument::default();
    let rows: Vec<LogLine> = (0..MAX_ROWS).map(|i| line(&format!("hráč {i}"))).collect();
    document.append(&rows);
    assert!(document.take_dirty());
    assert!(!document.take_dirty());
    assert_eq!(document.take_trimmed(), (0, 0));
    let removed = document.lines[0].chars;
    let second = document.lines[1].text.clone();
    assert_eq!(removed, document.lines[0].text.chars().count());
    document.append(&vec![line("one more row")]);
    assert_eq!(document.lines.len(), MAX_ROWS);
    assert_eq!(document.lines[0].text, second);
    assert_eq!(document.take_trimmed(), (removed, 1));
    assert_eq!(document.take_trimmed(), (0, 0));
    assert!(document.take_dirty());
    document.append(&Vec::new());
    assert!(!document.take_dirty());

    let rows: Vec<LogLine> = (0..MAX_ROWS)
        .map(|i| line(&format!("{i} {}", "🎃".repeat(1_025))))
        .collect();
    document.append(&rows);
    assert!(document.bytes <= MAX_TEXT_BYTES);
    assert!(document.lines.len() < MAX_ROWS);
    let bytes: usize = document.lines.iter().map(|l| l.text.len()).sum();
    assert_eq!(document.bytes, bytes);
    assert!(document
        .lines
        .back()
        .unwrap()
        .text
        .contains("1999 🎃"));
    let row = document.lines.back().unwrap();
    assert_eq!(&row.text[..row.timestamp_end], "12:34:56 ");
    assert_eq!(
        &row.text[row.timestamp_end..row.level_end],
        "INFO  "
    );
}

#[test]
fn plain_texts_are_shown_as_they_are() {
    for text in ["", "plain", "two\nlines\n", "hráč 🎃  "] {
        assert_eq!(sanitize_log_text(text), text);
    }
    let longest = "é".repeat(4096);
    assert_eq!(sanitize_log_text(&longest), longest);
    let mut gui = GuiHandle::new_managed();
    gui.append_log("12:34:56", Level::Warn, "  one plain line");
    gui.append_log("12:34:57", Level::Info, "first  \n\n \nsecond\n");
    let rows: Vec<(String, Level, String)> = gui
        .drain_logs()
        .into_iter()
        .map(|l| (l.timestamp, l.level, l.text))
        .collect();
    let row = |timestamp: &str, level, text: &str| (timestamp.to_owned(), level, text.to_owned());
    assert_eq!(
        rows,
        [
            row("12:34:56", Level::Warn, "  one plain line"),
            row("12:34:57", Level::Info, "first"),
            row("12:34:57", Level::Info, "second"),
        ]
    );
}

#[test]
fn the_rows_are_the_latest_of_all_that_were_appended() {
    let mut document = ConsoleDocument::default();
    let mut all: Vec<String> = Vec::new();
    for call in 0..7 {
        let rows: Vec<LogLine> = (0..call * 150)
            .map(|i| line(&format!("call {call} row {i} {}", "x".repeat(call * 40))))
            .collect();
        all.extend(rows.iter().map(|l| format!("12:34:56 INFO  {}\n", l.text)));
        document.append(&rows);
        document.take_trimmed();
        let kept: Vec<&str> = document.lines.iter().map(|l| l.text.as_str()).collect();
        assert!(kept.len() <= MAX_ROWS);
        assert_eq!(kept, all[all.len() - kept.len()..]);
        let bytes: usize = kept.iter().map(|text| text.len()).sum();
        assert_eq!(document.bytes, bytes);
        assert!(bytes <= MAX_TEXT_BYTES);
    }
    assert!(document.lines.len() < all.len());
}

fn document_text(document: &ConsoleDocument) -> String {
    document.lines.iter().map(|l| l.text.as_str()).collect()
}

fn selected(document: &ConsoleDocument, (start, end): (usize, usize)) -> String {
    document_text(document)
        .chars()
        .skip(start)
        .take(end - start)
        .collect()
}

#[test]
fn offscreen_selection_survives_new_logs_without_selecting_them() {
    let mut document = ConsoleDocument::default();
    let rows: Vec<LogLine> = (0..100).map(|i| line(&format!("line {i}"))).collect();
    document.append(&rows);
    let all = document_text(&document);
    let selection = (0, all.chars().count());
    document.append(&vec![line("new log after selection")]);
    let (trimmed, _) = document.take_trimmed();
    let selection = shift_selection(selection, trimmed);
    assert_eq!(selected(&document, selection), all);
    assert!(document_text(&document).ends_with("new log after selection\n"));
}

#[test]
fn trimming_keeps_unicode_selection_and_enforces_row_and_byte_limits() {
    let mut document = ConsoleDocument::default();
    let rows: Vec<LogLine> = (0..MAX_ROWS).map(|i| line(&format!("hráč {i}"))).collect();
    document.append(&rows);
    let removed_chars = document.lines[0].chars;
    let start = removed_chars + document.lines[1].chars;
    let end = start + document.lines[2].chars;
    let expected = document.lines[2].text.clone();
    document.append(&vec![line("one more row")]);
    let (trimmed, _) = document.take_trimmed();
    let range = shift_selection((start, end), trimmed);
    assert_eq!(selected(&document, range), expected);
    assert_eq!(document.lines.len(), MAX_ROWS);
    assert_eq!(range, (start - removed_chars, end - removed_chars));
    assert_eq!(shift_selection((3, 9), 5), (0, 4));

    let rows: Vec<LogLine> = (0..MAX_ROWS)
        .map(|i| line(&format!("{i} {}", "🎃".repeat(1_025))))
        .collect();
    document.append(&rows);
    assert!(document.bytes <= MAX_TEXT_BYTES);
    assert!(document.lines.len() < MAX_ROWS);
    assert_eq!(document_text(&document).len(), document.bytes);
    assert!(document_text(&document).contains("1999 "));
    assert!(document
        .lines
        .iter()
        .all(|line| line.text.is_char_boundary(line.text.len())));
}

#[test]
fn operator_membership_uses_current_config_uuids_not_names_or_levels() {
    let mut ops = vec![Operator {
        uuid: 1,
        name: "Old Name".to_string(),
        level: 0,
        bypasses_player_limit: false,
    }];
    assert_eq!(operator_ids(&ops), [1]);

    ops[0].name = "New Name".to_string();
    ops[0].level = 4;
    assert_eq!(operator_ids(&ops), [1]);

    // Reusing the old operator's name never grants membership to a different id.
    ops[0].uuid = 2;
    assert_eq!(operator_ids(&ops), [2]);
    ops.clear();
    assert!(operator_ids(&ops).is_empty());
}

#[test]
fn events_show_their_message_before_their_fields() {
    let mut event = LogVisitor::new();
    event.record_debug("player", "\"Steve\"");
    event.record_debug("message", "joined");
    event.record_debug("count", "3");
    assert_eq!(event.into_text(), "joined player=\"Steve\" count=3 ");
    let mut plain = LogVisitor::new();
    plain.record_debug("message", "saved");
    assert_eq!(plain.into_text(), "saved");
    let mut long = LogVisitor::new();
    long.record_debug("message", &"m".repeat(9_000));
    long.record_debug("field", "lost");
    assert_eq!(long.into_text(), "m".repeat(8_192));
}

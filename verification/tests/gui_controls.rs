use pumpkin::gui::controls::{
    close_frame, format_uptime, log_color, press_control, server_controls, status_label, status_message,
    update_close_state, whole_seconds, Accent, CloseCommand, CommandInput, ServerControlAction,
    TickSamples, SAMPLE_CAPACITY,
};
use pumpkin::gui::history::CommandHistory;
use pumpkin::gui::state::GuiHandle;
use pumpkin::gui::types::{Level, ServerStatus};
use std::collections::VecDeque;

#[test]
fn controls_offer_what_the_status_allows() {
    for (status, expected_action, enabled) in [
        (ServerStatus::Starting, ServerControlAction::Stop, true),
        (ServerStatus::Running, ServerControlAction::Stop, true),
        (ServerStatus::Stopping, ServerControlAction::Stop, false),
        (ServerStatus::Stopped, ServerControlAction::Start, true),
        (ServerStatus::Failed, ServerControlAction::Start, true),
    ] {
        let control = server_controls(status, false);
        assert_eq!(control.action, expected_action);
        assert_eq!(control.enabled, enabled);
    }
}

#[test]
fn pending_window_close_disables_start_and_stop_controls() {
    for status in [
        ServerStatus::Running,
        ServerStatus::Stopped,
        ServerStatus::Failed,
    ] {
        assert!(!server_controls(status, true).enabled);
    }
}

#[test]
fn native_close_waits_for_backend_completion_and_requests_stop_once() {
    let mut pending_close = false;
    let (stop, command) = update_close_state(ServerStatus::Running, false, &mut pending_close);
    assert!(!stop);
    assert_ne!(command, Some(CloseCommand::Close));

    let (stop, command) = update_close_state(ServerStatus::Running, true, &mut pending_close);
    assert!(stop);
    assert!(pending_close);
    assert_eq!(command, Some(CloseCommand::CancelClose));

    for clicked_close in [false, true, true] {
        let (stop, command) =
            update_close_state(ServerStatus::Stopping, clicked_close, &mut pending_close);
        assert!(!stop);
        assert_ne!(command, Some(CloseCommand::Close));
        if clicked_close {
            assert_eq!(command, Some(CloseCommand::CancelClose));
        }
    }
    let (stop, command) = update_close_state(ServerStatus::Stopped, false, &mut pending_close);
    assert!(!stop);
    assert_eq!(command, Some(CloseCommand::Close));
}

#[test]
fn ordinary_stop_keeps_window_open_for_another_start() {
    let mut pending_close = false;
    for status in [
        ServerStatus::Starting,
        ServerStatus::Running,
        ServerStatus::Stopping,
    ] {
        let (stop, command) = update_close_state(status, false, &mut pending_close);
        assert!(!stop);
        assert_ne!(command, Some(CloseCommand::Close));
    }
    let (stop, command) = update_close_state(ServerStatus::Stopped, false, &mut pending_close);
    assert!(!stop);
    assert_ne!(command, Some(CloseCommand::Close));
    assert!(!pending_close);

    for status in [ServerStatus::Starting, ServerStatus::Running] {
        let (stop, command) = update_close_state(status, false, &mut pending_close);
        assert!(!stop);
        assert!(command.is_none());
    }

    let (stop, command) = update_close_state(ServerStatus::Failed, false, &mut pending_close);
    assert!(!stop);
    assert_ne!(command, Some(CloseCommand::Close));
    pending_close = true;
    let (stop, command) = update_close_state(ServerStatus::Failed, false, &mut pending_close);
    assert!(!stop);
    assert_eq!(command, Some(CloseCommand::Close));
}

#[test]
fn pressing_a_control_starts_or_stops_the_server() {
    let mut handle = GuiHandle::new_managed();
    let mut error = None;
    press_control(&mut handle, ServerControlAction::Start, &mut error);
    assert_eq!(
        error.as_deref(),
        Some("Wait for the server to finish stopping before starting it.")
    );
    press_control(&mut handle, ServerControlAction::Stop, &mut error);
    assert_eq!(handle.desired_running(), Some(false));
    handle.finish(None, 0);
    press_control(&mut handle, ServerControlAction::Start, &mut error);
    assert_eq!(error, None);
    assert_eq!(handle.desired_running(), Some(true));
}

#[test]
fn labels_and_colors_tell_the_status() {
    assert_eq!(
        status_label(ServerStatus::Running),
        ("Running", Accent::Green)
    );
    assert_eq!(status_label(ServerStatus::Failed), ("Failed", Accent::Red));
    assert_eq!(log_color(Level::Error), Accent::Red);
    assert_eq!(log_color(Level::Warn), Accent::Orange);
    assert!(status_message(false, ServerStatus::Running, true).is_none());
    assert!(status_message(false, ServerStatus::Running, false).is_some());
    assert!(status_message(true, ServerStatus::Stopping, false).is_some());
}

#[test]
fn uptimes_read_as_clocks() {
    assert_eq!(format_uptime(0), "00:00:00");
    assert_eq!(format_uptime(3_661), "01:01:01");
    assert_eq!(format_uptime(360_000), "100:00:00");
    assert_eq!(whole_seconds(2_999_999_999), 2);
}

#[test]
fn tick_samples_are_taken_once_each() {
    let mut ticks = TickSamples {
        samples: VecDeque::new(),
        last_sample: None,
    };
    ticks.record(1, ServerStatus::Running, 20.0f64.to_bits());
    ticks.record(1, ServerStatus::Running, 19.0f64.to_bits());
    assert_eq!(ticks.samples, VecDeque::from([20.0f64.to_bits()]));
    for id in 2..200 {
        ticks.record(id, ServerStatus::Running, id);
    }
    assert_eq!(ticks.samples.len(), SAMPLE_CAPACITY);
    assert_eq!(ticks.samples.back(), Some(&199));
}

#[test]
fn submitted_commands_are_remembered_and_refused_ones_stay_in_the_field() {
    let mut handle = GuiHandle::new_managed();
    let mut input = CommandInput {
        history: CommandHistory::default(),
        command: "list".to_owned(),
        error: None,
    };
    input.submit(&mut handle);
    assert_eq!(input.command, "list");
    assert_eq!(
        input.error.as_deref(),
        Some("The server is not accepting commands.")
    );
    assert!(input.history.entries.is_empty());

    let mut update = handle.snapshot(0);
    update.status = ServerStatus::Running;
    update.commands_enabled = true;
    handle.apply_backend_update(update, Vec::new());
    input.submit(&mut handle);
    assert_eq!(input.command, "");
    assert_eq!(input.error, None);
    assert_eq!(input.history.entries, VecDeque::from(["list".to_owned()]));
    assert_eq!(handle.try_recv().unwrap(), "list");
    input.take_report(Some(Err("The command queue is full.".to_owned())));
    assert_eq!(input.error.as_deref(), Some("The command queue is full."));
    input.take_report(Some(Ok("kick @a".to_owned())));
    assert_eq!(input.error, None);
    assert_eq!(input.history.entries.len(), 2);
}

#[test]
fn a_window_that_closes_stops_the_server_first() {
    let mut handle = GuiHandle::new();
    let mut waits = false;
    assert_eq!(close_frame(&mut handle, false, &mut waits), (false, None));
    assert_eq!(
        close_frame(&mut handle, true, &mut waits),
        (true, Some(CloseCommand::CancelClose))
    );
    assert_eq!(handle.snapshot(0).status, ServerStatus::Stopping);
    assert_eq!(
        close_frame(&mut handle, true, &mut waits),
        (false, Some(CloseCommand::CancelClose))
    );
    handle.finish(None, 0);
    assert_eq!(
        close_frame(&mut handle, false, &mut waits),
        (false, Some(CloseCommand::Close))
    );

    let mut managed = GuiHandle::new_managed();
    let mut waits = false;
    managed.request_close();
    assert_eq!(close_frame(&mut managed, false, &mut waits), (false, None));
    assert!(waits);
    managed.finish(None, 0);
    assert_eq!(
        close_frame(&mut managed, false, &mut waits),
        (false, Some(CloseCommand::Close))
    );
}

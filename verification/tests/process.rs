use pumpkin::gui::process::{
    accepts_hello, accepts_ready, channel_parts, decode_frame, encode_frame, final_update,
    format_channel, frame_length, obey_control, parse_channel, session_ended, session_step, supervisor_step,
    BoundedBuffer, ChannelError, Control, FrameError, Link, LinkAction, LinkEvent, SessionAction,
    SessionEnd, SessionEvent, SupervisorStep, MAX_FRAME_BYTES, PROTOCOL_VERSION,
};
use pumpkin::gui::state::GuiHandle;
use pumpkin::gui::types::{Level, LogLine, ServerSnapshot, ServerStatus};

const NOW: &str = "12:34:56";

fn running(gui: &GuiHandle) -> ServerSnapshot {
    let mut update = gui.snapshot(0);
    update.status = ServerStatus::Running;
    update.commands_enabled = true;
    update
}

#[test]
fn a_missing_program_can_be_tried_again() {
    let mut gui = GuiHandle::new_managed();
    for attempt in 0..2 {
        assert_eq!(
            supervisor_step(&mut gui, true, false, 0),
            SupervisorStep::RunSession
        );
        assert!(matches!(
            session_step(&mut gui, SessionEvent::Bound, true, NOW),
            SessionAction::Spawn
        ));
        let action = session_step(
            &mut gui,
            SessionEvent::SpawnFailed("not found".to_owned()),
            true,
            NOW,
        );
        let SessionAction::End(error) = action else {
            panic!("expected the end of the session");
        };
        assert_eq!(
            error.as_deref(),
            Some("Unable to start the server process: not found")
        );
        assert!(session_ended(&mut gui, SessionEnd::Reaped(error), NOW, 0));
        assert_eq!(gui.snapshot(0).status, ServerStatus::Failed);
        assert_eq!(
            supervisor_step(&mut gui, false, false, 0),
            SupervisorStep::Wait
        );
        if attempt == 0 {
            gui.request_start().unwrap();
        }
    }
    let logs = gui.drain_logs();
    assert_eq!(logs.len(), 2);
    for line in &logs {
        assert_eq!(line.text, "Unable to start the server process: not found");
        assert_eq!(line.level, Level::Error);
    }
    assert_eq!(
        supervisor_step(&mut gui, false, true, 0),
        SupervisorStep::Exit
    );
    assert_eq!(gui.snapshot(0).status, ServerStatus::Failed);
}

#[test]
fn a_stop_before_the_start_launches_nothing() {
    let mut gui = GuiHandle::new_managed();
    gui.request_stop();
    let wanted = gui.desired_running().unwrap();
    assert_eq!(
        supervisor_step(&mut gui, wanted, false, 0),
        SupervisorStep::Wait
    );
    assert_eq!(gui.snapshot(0).status, ServerStatus::Stopped);
    assert!(gui.drain_logs().is_empty());
}

#[test]
fn a_shutdown_ends_a_server_that_was_never_started() {
    let mut gui = GuiHandle::new_managed();
    assert_eq!(
        supervisor_step(&mut gui, true, true, 0),
        SupervisorStep::Exit
    );
    assert_eq!(gui.snapshot(0).status, ServerStatus::Stopped);
    assert_eq!(gui.desired_running(), Some(false));
}

#[test]
fn commands_travel_in_frames() {
    let frame = encode_frame("say hráč".as_bytes()).unwrap();
    assert_eq!(&frame[..4], [0, 0, 0, 10]);
    let mut wire = frame.clone();
    wire.extend_from_slice(&encode_frame(b"{}").unwrap());
    let (first, end) = decode_frame(&wire).unwrap();
    assert_eq!(first, "say hráč".as_bytes());
    let (second, _) = decode_frame(&wire[end..]).unwrap();
    assert_eq!(second, b"{}");
}

#[test]
fn invalid_lengths_and_truncated_payloads_are_rejected() {
    for length in [0, MAX_FRAME_BYTES as u32 + 1] {
        let header = length.to_be_bytes();
        assert_eq!(frame_length(&header), Err(FrameError::InvalidLength));
        assert_eq!(
            decode_frame(&header).unwrap_err(),
            FrameError::InvalidLength
        );
    }
    assert_eq!(frame_length(&[0, 16, 0, 0]), Ok(MAX_FRAME_BYTES));
    let mut wire = 8u32.to_be_bytes().to_vec();
    wire.extend_from_slice(b"{}");
    assert_eq!(decode_frame(&wire).unwrap_err(), FrameError::UnexpectedEnd);
    assert_eq!(
        decode_frame(&[0, 0]).unwrap_err(),
        FrameError::UnexpectedEnd
    );
}

#[test]
fn oversized_outgoing_frames_do_not_write_a_header() {
    let quoted = format!("\"{}\"", "x".repeat(MAX_FRAME_BYTES));
    assert_eq!(
        encode_frame(quoted.as_bytes()).unwrap_err(),
        FrameError::TooLarge
    );
    assert!(encode_frame("x".repeat(MAX_FRAME_BYTES).as_bytes()).is_ok());
    let mut buffer = BoundedBuffer::new();
    assert_eq!(buffer.write(b"abc"), Ok(3));
    assert_eq!(
        buffer.write("x".repeat(MAX_FRAME_BYTES - 2).as_bytes()),
        Err(FrameError::TooLarge)
    );
    assert_eq!(buffer.into_bytes(), b"abc");
}

#[test]
fn channels_name_a_port_and_a_token() {
    let token = 0x0123_4567_89ab_cdef_0123_4567_89ab_cdef;
    let text = format_channel(25_565, token);
    assert_eq!(text, "25565:01234567-89ab-cdef-0123-456789abcdef");
    assert_eq!(parse_channel(Some(&text)), Ok((25_565, token)));
    assert_eq!(parse_channel(None), Err(ChannelError::Missing));
    assert_eq!(parse_channel(Some("25565")), Err(ChannelError::Invalid));
    assert_eq!(
        parse_channel(Some("65536:01234567-89ab-cdef-0123-456789abcdef")),
        Err(ChannelError::Port)
    );
    assert_eq!(
        parse_channel(Some("25565:not an id")),
        Err(ChannelError::Token)
    );
    let chars: Vec<char> = "7:whatever".chars().collect();
    assert_eq!(channel_parts(&chars, Some(9)), Ok((7, 9)));
    assert_eq!(channel_parts(&chars, None), Err(ChannelError::Token));
}

#[test]
fn greetings_need_the_version_and_the_token() {
    assert!(accepts_hello(PROTOCOL_VERSION, 5, 5));
    assert!(!accepts_hello(PROTOCOL_VERSION, 5, 6));
    assert!(!accepts_hello(PROTOCOL_VERSION + 1, 5, 5));
    assert!(accepts_ready(PROTOCOL_VERSION));
    assert!(!accepts_ready(0));
}

fn end_error(action: SessionAction) -> Option<String> {
    match action {
        SessionAction::End(error) => error,
        _ => panic!("expected the end of the session"),
    }
}

fn kill_error(action: SessionAction) -> Option<String> {
    match action {
        SessionAction::KillAndReap(error) => error,
        _ => panic!("expected a kill"),
    }
}

#[test]
fn sessions_take_their_steps_in_order() {
    let mut gui = GuiHandle::new_managed();
    assert!(matches!(
        session_step(&mut gui, SessionEvent::Bound, true, NOW),
        SessionAction::Spawn
    ));
    assert!(matches!(
        session_step(&mut gui, SessionEvent::Spawned(Some(4321)), true, NOW),
        SessionAction::AwaitBackend
    ));
    let logs = gui.drain_logs();
    assert_eq!(logs[0].text, "Started server process (PID 4321).");
    assert!(matches!(
        session_step(&mut gui, SessionEvent::Connected, true, NOW),
        SessionAction::SendReady
    ));
    assert!(matches!(
        session_step(&mut gui, SessionEvent::ReadySent, true, NOW),
        SessionAction::Supervise
    ));
}

#[test]
fn sessions_end_with_what_went_wrong() {
    let mut gui = GuiHandle::new_managed();
    let mut step = |event, wanted| session_step(&mut gui, event, wanted, NOW);
    assert_eq!(
        end_error(step(SessionEvent::BindFailed("denied".to_owned()), true)).unwrap(),
        "Unable to open the server control channel: denied"
    );
    assert_eq!(end_error(step(SessionEvent::Bound, false)), None);
    assert_eq!(kill_error(step(SessionEvent::Spawned(None), false)), None);
    assert_eq!(
        end_error(step(SessionEvent::ExitedEarly("code 3".to_owned()), true)).unwrap(),
        "The server exited before connecting to its window: code 3"
    );
    assert_eq!(
        kill_error(step(SessionEvent::ConnectFailed("late".to_owned()), true)).unwrap(),
        "Unable to connect to the server process: late"
    );
    assert_eq!(kill_error(step(SessionEvent::StoppedEarly, false)), None);
    assert_eq!(kill_error(step(SessionEvent::Connected, false)), None);
    assert!(gui.drain_logs().is_empty());
    assert_eq!(gui.snapshot(0).status, ServerStatus::Starting);

    let action = session_step(
        &mut gui,
        SessionEvent::ReadyFailed("reset".to_owned()),
        true,
        NOW,
    );
    let SessionAction::CloseAndReap(error) = action else {
        panic!("an acknowledged server is never killed");
    };
    assert_eq!(error, "Unable to acknowledge the server connection: reset");
    assert_eq!(gui.snapshot(0).status, ServerStatus::Stopping);
}

#[test]
fn a_failed_wait_offers_no_start() {
    let mut gui = GuiHandle::new_managed();
    assert!(!session_ended(
        &mut gui,
        SessionEnd::WaitFailed("no child".to_owned()),
        NOW,
        0
    ));
    assert_eq!(gui.snapshot(0).status, ServerStatus::Stopping);
    assert!(gui.request_start().is_err());
    let logs = gui.drain_logs();
    assert_eq!(logs[0].text, "Unable to supervise the server: no child");
    assert_eq!(logs[0].level, Level::Error);
}

#[test]
fn later_errors_are_shown_but_not_logged() {
    let mut gui = GuiHandle::new_managed();
    let error = "The server exited with status 3".to_owned();
    assert!(session_ended(&mut gui, SessionEnd::Reaped(Some(error)), NOW, 0));
    let snapshot = gui.snapshot(0);
    assert_eq!(snapshot.status, ServerStatus::Failed);
    assert_eq!(
        snapshot.last_error.as_deref(),
        Some("The server exited with status 3")
    );
    assert!(gui.drain_logs().is_empty());
}

#[test]
fn commands_of_a_dead_server_do_not_reach_the_next_one() {
    let mut gui = GuiHandle::new_managed();
    let update = running(&gui);
    gui.apply_backend_update(update, Vec::new());
    gui.submit_command("old command").unwrap();
    assert!(session_ended(&mut gui, SessionEnd::Reaped(None), NOW, 0));
    assert!(gui.try_recv().is_none());
    assert_eq!(gui.snapshot(0).status, ServerStatus::Stopped);
}

#[test]
fn a_stop_is_sent_once() {
    let mut gui = GuiHandle::new_managed();
    let mut link = Link::new();
    let update = running(&gui);
    assert_eq!(
        link.step(&mut gui, LinkEvent::Updated(update, Vec::new())),
        LinkAction::Continue
    );
    assert!(link.sends_commands() && link.heeds_wishes() && link.reads_updates());
    assert_eq!(
        link.step(&mut gui, LinkEvent::Look(true)),
        LinkAction::Continue
    );
    assert_eq!(
        link.step(&mut gui, LinkEvent::Look(false)),
        LinkAction::SendStop
    );
    assert_eq!(gui.snapshot(0).status, ServerStatus::Stopping);
    assert!(!link.sends_commands() && !link.heeds_wishes());
    assert_eq!(
        link.step(&mut gui, LinkEvent::WishesGone),
        LinkAction::Continue
    );
    assert_eq!(
        link.step(&mut gui, LinkEvent::Look(false)),
        LinkAction::Continue
    );
}

#[test]
fn the_first_error_of_a_link_stands() {
    let mut gui = GuiHandle::new_managed();
    let mut link = Link::new();
    assert_eq!(
        link.step(&mut gui, LinkEvent::CommandFailed("broken pipe".to_owned())),
        LinkAction::CloseWriter
    );
    assert_eq!(
        link.step(&mut gui, LinkEvent::StopFailed("closed".to_owned())),
        LinkAction::CloseWriter
    );
    link.drain_timed_out();
    link.late_failure("reset".to_owned());
    assert_eq!(
        link.conclude(&gui, true, "code 0").as_deref(),
        Some("Unable to send a server command: broken pipe")
    );

    let mut link = Link::new();
    link.step(&mut gui, LinkEvent::StopFailed("closed".to_owned()));
    assert_eq!(
        link.conclude(&gui, true, "").as_deref(),
        Some("Unable to request server shutdown: closed")
    );
    let mut link = Link::new();
    link.step(
        &mut gui,
        LinkEvent::UpdatesEnded(Some("reset".to_owned())),
    );
    assert_eq!(
        link.conclude(&gui, true, "").as_deref(),
        Some("The server control channel failed: reset")
    );
    let mut link = Link::new();
    link.step(&mut gui, LinkEvent::UpdatesEnded(None));
    assert!(!link.reads_updates());
    assert_eq!(
        link.conclude(&gui, true, "").as_deref(),
        Some("The server control channel closed unexpectedly.")
    );
    let mut link = Link::new();
    link.process_gone(&mut gui);
    link.drain_timed_out();
    assert_eq!(
        link.conclude(&gui, true, "").as_deref(),
        Some("Timed out receiving the final server logs.")
    );
}

#[test]
fn a_clean_end_is_no_error_and_a_failure_has_one() {
    let mut gui = GuiHandle::new_managed();
    let mut link = Link::new();
    let mut last = running(&gui);
    last.status = ServerStatus::Stopped;
    let logs = vec![LogLine {
        timestamp: NOW.to_owned(),
        level: Level::Info,
        text: "Saved".to_owned(),
    }];
    link.process_gone(&mut gui);
    link.late_update(&mut gui, last.clone(), logs);
    link.late_failure("reset".to_owned());
    assert_eq!(gui.drain_logs()[0].text, "Saved");
    assert_eq!(link.conclude(&gui, true, "code 0"), None);
    assert_eq!(
        Link::new().conclude(&gui, false, "code 7").as_deref(),
        Some("The server process exited with code 7.")
    );
    let mut failed = GuiHandle::new_managed();
    last.last_error = Some("out of memory".to_owned());
    failed.apply_backend_update(last, Vec::new());
    assert_eq!(
        Link::new().conclude(&failed, false, "code 7").as_deref(),
        Some("out of memory")
    );
}

#[test]
fn a_server_obeys_its_window() {
    let mut gui = GuiHandle::new();
    assert!(!obey_control(
        &mut gui,
        Control::Command("list".to_owned()),
        NOW
    ));
    let logs = gui.drain_logs();
    assert_eq!(logs[0].text, "The server is not accepting commands.");
    assert_eq!(logs[0].level, Level::Warn);
    assert_eq!(logs[0].timestamp, NOW);
    assert!(obey_control(&mut gui, Control::Stop, NOW));
    assert!(!obey_control(&mut gui, Control::Stop, NOW));
    assert_eq!(gui.snapshot(0).status, ServerStatus::Stopping);
}

#[test]
fn the_last_updates_carry_the_whole_log() {
    let mut gui = GuiHandle::new();
    for i in 0..150 {
        gui.append_log(NOW, Level::Info, &format!("line {i}"));
    }
    gui.finish(None, 7);
    let mut rows = Vec::new();
    let mut updates = 0;
    loop {
        let (snapshot, logs, last) = final_update(&mut gui, 9);
        assert_eq!(snapshot.status, ServerStatus::Stopped);
        assert_eq!(snapshot.uptime_nanos, 7);
        rows.extend(logs.into_iter().map(|l| l.text));
        updates += 1;
        if last {
            break;
        }
    }
    assert_eq!(updates, 4);
    assert_eq!(rows.len(), 150);
    assert_eq!(rows[149], "line 149");
}

use pumpkin::cli::LaunchMode;
use pumpkin::launch::{
    backend_error, choose_task, handle_interrupt, handle_panic,
    print_support_links_and_warning, running_line, started_in,
    starting_line, supervisor_error, try_set_crash_report, window_error, InterruptAction,
    NamedColor, Outcome, PanicAction, Span, Task,
};

fn plain(line: &[Span]) -> String {
    line.iter().map(|span| span.text.as_str()).collect()
}

#[test]
fn the_first_line_names_both_editions() {
    let line = starting_line("0.1.0", 776, "1.26.50", 2192);
    assert_eq!(
        plain(&line),
        "Starting Pumpkin 0.1.0 Java Minecraft (Protocol 776) | 1.26.50 Bedrock (Protocol 2192)"
    );
    assert_eq!(line[1].color, Some(NamedColor::Gold));
    assert_eq!(line[3].color, Some(NamedColor::Green));
    assert_eq!(line[0].color, None);
}

#[test]
fn the_ports_are_separated_only_where_both_editions_run() {
    let java = Some("0.0.0.0:25565".to_owned());
    let bedrock = Some("0.0.0.0:19132".to_owned());
    assert_eq!(
        plain(&running_line(&java, &bedrock)),
        "Server is now running. Connect using port: Java Edition: 0.0.0.0:25565 | Bedrock Edition: 0.0.0.0:19132"
    );
    assert_eq!(
        plain(&running_line(&java, &None)),
        "Server is now running. Connect using port: Java Edition: 0.0.0.0:25565"
    );
    assert_eq!(
        plain(&running_line(&None, &bedrock)),
        "Server is now running. Connect using port: Bedrock Edition: 0.0.0.0:19132"
    );
    assert_eq!(
        plain(&running_line(&None, &None)),
        "Server is now running. Connect using port: "
    );
}

#[test]
fn waiting_for_plugins_does_not_count_as_starting() {
    assert_eq!(started_in(5_500_000_000, 1_000_000_000), 4_500);
    assert_eq!(started_in(1, 2), 0);
}

#[test]
fn only_panics_of_the_main_thread_abort() {
    assert_eq!(handle_panic(true, false, true), PanicAction::ReportAndAbort);
    assert_eq!(handle_panic(true, false, false), PanicAction::AlertAndAbort);
    for (main_thread, desktop) in [(true, true), (false, true), (false, false)] {
        assert_eq!(
            handle_panic(main_thread, desktop, true),
            PanicAction::StopServer
        );
        assert_eq!(
            handle_panic(main_thread, desktop, false),
            PanicAction::Alert
        );
    }
}

#[test]
fn a_crash_is_reported_once_and_not_while_stopping() {
    let mut kept = None;
    assert!(!try_set_crash_report(&mut kept, "late", true));
    assert_eq!(kept, None);
    assert!(try_set_crash_report(&mut kept, "first", false));
    assert!(!try_set_crash_report(&mut kept, "second", false));
    assert_eq!(kept, Some("first"));
}

#[test]
fn an_interrupt_never_forces_a_server_behind_a_window() {
    assert_eq!(handle_interrupt(true), InterruptAction::Stop);
    assert_eq!(handle_interrupt(false), InterruptAction::StopOrExit);
}

#[test]
fn ends_are_reported() {
    assert_eq!(supervisor_error(&Outcome::Done), None);
    assert_eq!(
        supervisor_error(&Outcome::Failed("no port".to_owned())).unwrap(),
        "Server supervisor failed: no port"
    );
    assert_eq!(
        supervisor_error(&Outcome::Panicked).unwrap(),
        "The server supervisor encountered a fatal error."
    );
    assert_eq!(window_error(&Outcome::Done), None);
    assert_eq!(
        window_error(&Outcome::Failed("no display".to_owned())).unwrap(),
        "Unable to open the server window: no display"
    );
    assert_eq!(
        window_error(&Outcome::Panicked).unwrap(),
        "The server window failed; waiting for the server to save and stop."
    );
    assert_eq!(backend_error(false, 0), (None, 0));
    assert_eq!(
        backend_error(false, 3),
        (
            Some("The server stopped with an error. See the log for details.".to_owned()),
            3
        )
    );
    assert_eq!(
        backend_error(true, 0),
        (
            Some("The server encountered a fatal error. See the crash report and log.".to_owned()),
            1
        )
    );
}

#[test]
fn the_mode_decides_what_runs() {
    assert_eq!(
        choose_task(LaunchMode::Help, &Ok(true)).unwrap(),
        Task::ShowHelp
    );
    assert_eq!(
        choose_task(LaunchMode::Version, &Ok(true)).unwrap(),
        Task::ShowVersion
    );
    assert_eq!(
        choose_task(LaunchMode::Auto, &Ok(true)).unwrap(),
        Task::RunDesktop
    );
    assert_eq!(
        choose_task(LaunchMode::Headless, &Ok(false)).unwrap(),
        Task::RunServer
    );
    assert_eq!(
        choose_task(LaunchMode::Gui, &Err("no display".to_owned())).unwrap_err(),
        "no display"
    );
}

#[test]
fn every_run_shows_where_to_turn() {
    let notices = print_support_links_and_warning();
    let lines: Vec<String> = notices.iter().map(|n| plain(&n.line)).collect();
    assert_eq!(
        lines,
        [
            "Pumpkin is currently under heavy development!",
            "Report issues on https://github.com/Pumpkin-MC/Pumpkin/issues",
            "Join our Discord for community support: https://discord.gg/wT8XjrjKkf",
            "Consider Donating to https://pumpkinmc.org/donate/",
        ]
    );
    assert!(notices[0].is_warning);
    assert!(!notices[1].is_warning);
    assert_eq!(notices[0].line[0].color, Some(NamedColor::DarkRed));
}

use pumpkin::cli::LaunchMode;

fn parse(args: &[&str]) -> Result<LaunchMode, String> {
    LaunchMode::parse(args.iter().map(|s| (*s).to_owned()).collect())
}

#[test]
fn accepts_vanilla_nogui_and_explicit_modes() {
    assert_eq!(parse(&[]).unwrap(), LaunchMode::Auto);
    assert_eq!(parse(&["nogui"]).unwrap(), LaunchMode::Headless);
    assert_eq!(parse(&["--nogui"]).unwrap(), LaunchMode::Headless);
    assert_eq!(parse(&["--gui"]).unwrap(), LaunchMode::Gui);
    assert_eq!(parse(&["--help"]).unwrap(), LaunchMode::Help);
    assert_eq!(parse(&["--version"]).unwrap(), LaunchMode::Version);
}

#[test]
fn rejects_conflicting_and_unknown_arguments() {
    assert!(parse(&["--gui", "--nogui"]).is_err());
    assert!(parse(&["--nogui", "--gui"]).is_err());
    assert!(parse(&["--unknown"]).is_err());
}

#[test]
fn automatic_mode_keeps_headless_builds_and_hosts_headless() {
    for (supported, display, expected) in [
        (false, false, false),
        (false, true, false),
        (true, false, false),
        (true, true, true),
    ] {
        assert_eq!(LaunchMode::Auto.use_gui(supported, display), Ok(expected));
        assert_eq!(LaunchMode::Headless.use_gui(supported, display), Ok(false));
    }
}

#[test]
fn explicit_gui_reports_unsupported_or_missing_display() {
    assert!(LaunchMode::Gui.use_gui(false, true).is_err());
    assert!(LaunchMode::Gui.use_gui(true, false).is_err());
    assert_eq!(LaunchMode::Gui.use_gui(true, true), Ok(true));
}

#[test]
fn refusals_say_why() {
    assert_eq!(
        parse(&["--gui", "nogui"]).unwrap_err(),
        "--gui and --nogui cannot be used together."
    );
    assert_eq!(
        parse(&["--colour"]).unwrap_err(),
        "Unknown argument: --colour. Use --help for options."
    );
    assert_eq!(
        LaunchMode::Gui.use_gui(false, false).unwrap_err(),
        "This build has no desktop GUI. Build on Linux, Windows or macOS with --features gui."
    );
    assert_eq!(
        LaunchMode::Gui.use_gui(true, false).unwrap_err(),
        "No desktop display is available. Use --nogui for a headless server."
    );
    assert_eq!(parse(&["--gui", "-h", "--nonsense"]), Ok(LaunchMode::Help));
    assert_eq!(parse(&["-V"]), Ok(LaunchMode::Version));
    assert_eq!(parse(&["nogui", "--nogui"]), Ok(LaunchMode::Headless));
}

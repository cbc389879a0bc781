//! What the program says and decides around a run of the server.

use crate::cli::LaunchMode;
use crate::text::{copy_text, decimal, push_decimal};
use vstd::prelude::*;

verus! {

/// A colour of the terminal.
#[derive(Clone, Copy, Debug, PartialEq, Eq, Structural)]
pub enum NamedColor {
    Gold,
    Green,
    DarkBlue,
    Yellow,
    Red,
    DarkRed,
    DarkAqua,
    Aqua,
    DarkPurple,
}

/// A part of a line, with its colour where it has one.
#[derive(Debug)]
pub struct Span {
    pub text: String,
    pub color: Option<NamedColor>,
}

impl View for Span {
    type V = (Seq<char>, Option<NamedColor>);

    open spec fn view(&self) -> (Seq<char>, Option<NamedColor>) {
        (self.text@, self.color)
    }
}

/// What a line shows.
pub open spec fn shown(line: Seq<Span>) -> Seq<(Seq<char>, Option<NamedColor>)> {
    line.map_values(|s: Span| s@)
}

fn push_span(line: &mut Vec<Span>, text: &str, color: Option<NamedColor>)
    ensures
        shown(final(line)@) == shown(old(line)@).push((text@, color)),
{
    line.push(Span { text: text.to_owned(), color });
    assert(shown(line@) =~= shown(old(line)@).push((text@, color)));
}

/// A number as text.
fn number_text(n: u64) -> (r: String)
    ensures
        r@ == decimal(n as nat),
{
    let mut s = String::new();
    push_decimal(&mut s, n);
    assert(s@ =~= decimal(n as nat));
    s
}

/// The line that a run starts with.
pub open spec fn starting(
    version: Seq<char>,
    java_protocol: nat,
    bedrock_version: Seq<char>,
    bedrock_protocol: nat,
) -> Seq<(Seq<char>, Option<NamedColor>)> {
    seq![
        ("Starting "@, None),
        ("Pumpkin"@, Some(NamedColor::Gold)),
        (" "@, None),
        (version, Some(NamedColor::Green)),
        (" Java Minecraft (Protocol "@, None),
        (decimal(java_protocol), Some(NamedColor::DarkBlue)),
        (") | "@, None),
        (bedrock_version, Some(NamedColor::Gold)),
        (" Bedrock (Protocol "@, None),
        (decimal(bedrock_protocol), Some(NamedColor::DarkBlue)),
        (")"@, None),
    ]
}

/// The line that a run starts with.
pub fn starting_line(
    version: &str,
    java_protocol: u32,
    bedrock_version: &str,
    bedrock_protocol: u32,
) -> (r: Vec<Span>)
    ensures
        shown(r@) == starting(
            version@,
            java_protocol as nat,
            bedrock_version@,
            bedrock_protocol as nat,
        ),
{
    let mut line: Vec<Span> = Vec::new();
    let java = number_text(java_protocol as u64);
    let bedrock = number_text(bedrock_protocol as u64);
    push_span(&mut line, "Starting ", None);
    push_span(&mut line, "Pumpkin", Some(NamedColor::Gold));
    push_span(&mut line, " ", None);
    push_span(&mut line, version, Some(NamedColor::Green));
    push_span(&mut line, " Java Minecraft (Protocol ", None);
    push_span(&mut line, java.as_str(), Some(NamedColor::DarkBlue));
    push_span(&mut line, ") | ", None);
    push_span(&mut line, bedrock_version, Some(NamedColor::Gold));
    push_span(&mut line, " Bedrock (Protocol ", None);
    push_span(&mut line, bedrock.as_str(), Some(NamedColor::DarkBlue));
    push_span(&mut line, ")", None);
    assert(shown(line@) =~= starting(
        version@,
        java_protocol as nat,
        bedrock_version@,
        bedrock_protocol as nat,
    ));
    line
}

/// A line of the log, and whether it is a warning.
#[derive(Debug)]
pub struct Notice {
    pub is_warning: bool,
    pub line: Vec<Span>,
}

impl View for Notice {
    type V = (bool, Seq<(Seq<char>, Option<NamedColor>)>);

    open spec fn view(&self) -> (bool, Seq<(Seq<char>, Option<NamedColor>)>) {
        (self.is_warning, shown(self.line@))
    }
}

/// What notices show.
pub open spec fn notices(list: Seq<Notice>) -> Seq<(bool, Seq<(Seq<char>, Option<NamedColor>)>)> {
    list.map_values(|n: Notice| n@)
}

/// The warning and the links that every run shows.
pub open spec fn support_notices() -> Seq<(bool, Seq<(Seq<char>, Option<NamedColor>)>)> {
    seq![
        (
            true,
            seq![
                (
                    "Pumpkin is currently under heavy development!"@,
                    Some(NamedColor::DarkRed),
                ),
            ],
        ),
        (
            false,
            seq![
                ("Report issues on "@, None),
                (
                    "https://github.com/Pumpkin-MC/Pumpkin/issues"@,
                    Some(NamedColor::DarkAqua),
                ),
            ],
        ),
        (
            false,
            seq![
                ("Join our "@, None),
                ("Discord"@, Some(NamedColor::DarkBlue)),
                (" for community support: "@, None),
                ("https://discord.gg/wT8XjrjKkf"@, Some(NamedColor::Aqua)),
            ],
        ),
        (
            false,
            seq![
                ("Consider "@, None),
                ("Donating"@, Some(NamedColor::DarkPurple)),
                (" to "@, None),
                ("https://pumpkinmc.org/donate/"@, Some(NamedColor::Gold)),
            ],
        ),
    ]
}

/// The warning and the links that every run shows.
pub fn print_support_links_and_warning() -> (r: Vec<Notice>)
    ensures
        notices(r@) == support_notices(),
{
    let mut warning: Vec<Span> = Vec::new();
    push_span(
        &mut warning,
        "Pumpkin is currently under heavy development!",
        Some(NamedColor::DarkRed),
    );
    let mut issues: Vec<Span> = Vec::new();
    push_span(&mut issues, "Report issues on ", None);
    push_span(
        &mut issues,
        "https://github.com/Pumpkin-MC/Pumpkin/issues",
        Some(NamedColor::DarkAqua),
    );
    let mut community: Vec<Span> = Vec::new();
    push_span(&mut community, "Join our ", None);
    push_span(&mut community, "Discord", Some(NamedColor::DarkBlue));
    push_span(&mut community, " for community support: ", None);
    push_span(&mut community, "https://discord.gg/wT8XjrjKkf", Some(NamedColor::Aqua));
    let mut donations: Vec<Span> = Vec::new();
    push_span(&mut donations, "Consider ", None);
    push_span(&mut donations, "Donating", Some(NamedColor::DarkPurple));
    push_span(&mut donations, " to ", None);
    push_span(&mut donations, "https://pumpkinmc.org/donate/", Some(NamedColor::Gold));
    let mut list: Vec<Notice> = Vec::new();
    list.push(Notice { is_warning: true, line: warning });
    list.push(Notice { is_warning: false, line: issues });
    list.push(Notice { is_warning: false, line: community });
    list.push(Notice { is_warning: false, line: donations });
    proof {
        let wanted = support_notices();
        assert(shown(warning@) =~= wanted[0].1);
        assert(shown(issues@) =~= wanted[1].1);
        assert(shown(community@) =~= wanted[2].1);
        assert(shown(donations@) =~= wanted[3].1);
        assert(notices(list@) =~= wanted);
    }
    list
}

/// How many milliseconds a start took: the wait for plugins does not count.
pub open spec fn start_millis(elapsed_nanos: u128, plugin_wait_nanos: u128) -> int {
    if elapsed_nanos >= plugin_wait_nanos {
        (elapsed_nanos - plugin_wait_nanos) / 1_000_000
    } else {
        0
    }
}

/// How many milliseconds a start took.
pub fn started_in(elapsed_nanos: u128, plugin_wait_nanos: u128) -> (r: u128)
    ensures
        r == start_millis(elapsed_nanos, plugin_wait_nanos),
{
    if elapsed_nanos >= plugin_wait_nanos {
        (elapsed_nanos - plugin_wait_nanos) / 1_000_000
    } else {
        0
    }
}

/// Where an edition of the game can connect to, where it can.
pub open spec fn edition(
    name: Seq<char>,
    color: NamedColor,
    address: Option<Seq<char>>,
) -> Seq<(Seq<char>, Option<NamedColor>)> {
    match address {
        None => Seq::empty(),
        Some(a) => seq![(name, Some(color)), (" "@, None), (a, Some(NamedColor::DarkBlue))],
    }
}

/// The line that says where to connect to: the editions that are enabled, with a separator
/// between them if both are.
pub open spec fn running(java: Option<Seq<char>>, bedrock: Option<Seq<char>>) -> Seq<
    (Seq<char>, Option<NamedColor>),
> {
    seq![("Server is now running. Connect using port: "@, None::<NamedColor>)] + edition(
        "Java Edition:"@,
        NamedColor::Yellow,
        java,
    ) + (if java is Some && bedrock is Some {
        seq![(" | "@, None::<NamedColor>)]
    } else {
        Seq::empty()
    }) + edition("Bedrock Edition:"@, NamedColor::Gold, bedrock)
}

/// What an optional text is.
pub open spec fn text_view(text: Option<String>) -> Option<Seq<char>> {
    match text {
        Some(s) => Some(s@),
        None => None,
    }
}

fn push_edition(line: &mut Vec<Span>, name: &str, color: NamedColor, address: &Option<String>)
    ensures
        shown(final(line)@) == shown(old(line)@) + edition(name@, color, text_view(*address)),
{
    match address {
        None => {},
        Some(a) => {
            push_span(line, name, Some(color));
            push_span(line, " ", None);
            push_span(line, a.as_str(), Some(NamedColor::DarkBlue));
        },
    }
    assert(shown(line@) =~= shown(old(line)@) + edition(name@, color, text_view(*address)));
}

/// The line that says where to connect to.
pub fn running_line(java: &Option<String>, bedrock: &Option<String>) -> (r: Vec<Span>)
    ensures
        shown(r@) == running(text_view(*java), text_view(*bedrock)),
{
    let mut line: Vec<Span> = Vec::new();
    push_span(&mut line, "Server is now running. Connect using port: ", None);
    push_edition(&mut line, "Java Edition:", NamedColor::Yellow, java);
    if java.is_some() && bedrock.is_some() {
        push_span(&mut line, " | ", None);
    }
    push_edition(&mut line, "Bedrock Edition:", NamedColor::Gold, bedrock);
    assert(shown(line@) =~= running(text_view(*java), text_view(*bedrock)));
    line
}

/// What is to be done after a panic.
#[derive(Clone, Copy, Debug, PartialEq, Eq, Structural)]
pub enum PanicAction {
    /// Print and save the report, then abort.
    ReportAndAbort,
    /// Say that the main thread panicked while stopping, then abort.
    AlertAndAbort,
    /// Keep the report and stop the server.
    StopServer,
    /// Say that something panicked while stopping.
    Alert,
}

/// What is to be done after a panic. The main thread cannot go on after one, unless a
/// window still can; the first panic of a server that is not stopping has a report.
pub open spec fn after_panic(on_main_thread: bool, desktop_active: bool, is_first: bool) -> PanicAction {
    if on_main_thread && !desktop_active {
        if is_first {
            PanicAction::ReportAndAbort
        } else {
            PanicAction::AlertAndAbort
        }
    } else if is_first {
        PanicAction::StopServer
    } else {
        PanicAction::Alert
    }
}

/// What is to be done after a panic.
pub fn handle_panic(on_main_thread: bool, desktop_active: bool, is_first: bool) -> (r: PanicAction)
    ensures
        r == after_panic(on_main_thread, desktop_active, is_first),
{
    if on_main_thread && !desktop_active {
        if is_first {
            PanicAction::ReportAndAbort
        } else {
            PanicAction::AlertAndAbort
        }
    } else if is_first {
        PanicAction::StopServer
    } else {
        PanicAction::Alert
    }
}

/// A report of a panic can be kept only once, and not while the server is stopping.
pub fn try_set_crash_report<T>(kept: &mut Option<T>, report: T, is_stopping: bool) -> (r: bool)
    ensures
        r == (!is_stopping && *old(kept) is None),
        *final(kept) == (if r {
            Some(report)
        } else {
            *old(kept)
        }),
{
    if is_stopping || kept.is_some() {
        return false;
    }
    *kept = Some(report);
    true
}

/// What an interrupt does to the server.
#[derive(Clone, Copy, Debug, PartialEq, Eq, Structural)]
pub enum InterruptAction {
    Stop,
    /// Stop, or exit if it is stopping already.
    StopOrExit,
}

/// What an interrupt does: a server behind a window may be saving already, and is never
/// forced to exit.
pub fn handle_interrupt(has_window: bool) -> (r: InterruptAction)
    ensures
        r == if has_window {
            InterruptAction::Stop
        } else {
            InterruptAction::StopOrExit
        },
{
    if has_window {
        InterruptAction::Stop
    } else {
        InterruptAction::StopOrExit
    }
}

/// How something that can fail or panic ended.
#[derive(Debug)]
pub enum Outcome {
    Done,
    Failed(String),
    Panicked,
}

/// How something ended.
pub enum OutcomeModel {
    Done,
    Failed(Seq<char>),
    Panicked,
}

impl View for Outcome {
    type V = OutcomeModel;

    open spec fn view(&self) -> OutcomeModel {
        match self {
            Outcome::Done => OutcomeModel::Done,
            Outcome::Failed(s) => OutcomeModel::Failed(s@),
            Outcome::Panicked => OutcomeModel::Panicked,
        }
    }
}

/// What an end of the supervisor is reported as.
pub open spec fn supervisor_report(outcome: OutcomeModel) -> Option<Seq<char>> {
    match outcome {
        OutcomeModel::Done => None,
        OutcomeModel::Failed(e) => Some("Server supervisor failed: "@ + e),
        OutcomeModel::Panicked => Some("The server supervisor encountered a fatal error."@),
    }
}

/// What an end of the supervisor is reported as; the program then fails.
pub fn supervisor_error(outcome: &Outcome) -> (r: Option<String>)
    ensures
        match supervisor_report(outcome@) {
            Some(s) => r is Some && r->0@ == s,
            None => r is None,
        },
{
    match outcome {
        Outcome::Done => None,
        Outcome::Failed(e) => {
            let mut s = "Server supervisor failed: ".to_owned();
            s.append(e.as_str());
            Some(s)
        },
        Outcome::Panicked => Some("The server supervisor encountered a fatal error.".to_owned()),
    }
}

/// What an end of the window is reported as.
pub open spec fn window_report(outcome: OutcomeModel) -> Option<Seq<char>> {
    match outcome {
        OutcomeModel::Done => None,
        OutcomeModel::Failed(e) => Some("Unable to open the server window: "@ + e),
        OutcomeModel::Panicked => Some(
            "The server window failed; waiting for the server to save and stop."@,
        ),
    }
}

/// What an end of the window is reported as; the program then fails.
pub fn window_error(outcome: &Outcome) -> (r: Option<String>)
    ensures
        match window_report(outcome@) {
            Some(s) => r is Some && r->0@ == s,
            None => r is None,
        },
{
    match outcome {
        Outcome::Done => None,
        Outcome::Failed(e) => {
            let mut s = "Unable to open the server window: ".to_owned();
            s.append(e.as_str());
            Some(s)
        },
        Outcome::Panicked => Some(
            "The server window failed; waiting for the server to save and stop.".to_owned(),
        ),
    }
}

/// What the end of a server behind a window is reported as, and the code that its process
/// exits with.
pub open spec fn backend_report(panicked: bool, exit_code: i32) -> (Option<Seq<char>>, i32) {
    if panicked {
        (Some("The server encountered a fatal error. See the crash report and log."@), 1)
    } else if exit_code != 0 {
        (Some("The server stopped with an error. See the log for details."@), exit_code)
    } else {
        (None, exit_code)
    }
}

/// What the end of a server behind a window is reported as, and the code that its process
/// exits with.
pub fn backend_error(panicked: bool, exit_code: i32) -> (r: (Option<String>, i32))
    ensures
        r.1 == backend_report(panicked, exit_code).1,
        match backend_report(panicked, exit_code).0 {
            Some(s) => r.0 is Some && r.0->0@ == s,
            None => r.0 is None,
        },
{
    if panicked {
        (
            Some("The server encountered a fatal error. See the crash report and log.".to_owned()),
            1,
        )
    } else if exit_code != 0 {
        (
            Some("The server stopped with an error. See the log for details.".to_owned()),
            exit_code,
        )
    } else {
        (None, exit_code)
    }
}

/// What the program does.
#[derive(Clone, Copy, Debug, PartialEq, Eq, Structural)]
pub enum Task {
    ShowHelp,
    ShowVersion,
    RunDesktop,
    RunServer,
}

/// What the program does, or why it cannot.
pub open spec fn task_of(mode: LaunchMode, use_gui: Result<bool, Seq<char>>) -> Result<
    Task,
    Seq<char>,
> {
    match mode {
        LaunchMode::Help => Ok(Task::ShowHelp),
        LaunchMode::Version => Ok(Task::ShowVersion),
        _ => match use_gui {
            Err(e) => Err(e),
            Ok(true) => Ok(Task::RunDesktop),
            Ok(false) => Ok(Task::RunServer),
        },
    }
}

/// What a choice is.
pub open spec fn choice_view(use_gui: Result<bool, String>) -> Result<bool, Seq<char>> {
    match use_gui {
        Ok(b) => Ok(b),
        Err(e) => Err(e@),
    }
}

/// Settles what the program does. Only one that runs the server itself starts its services;
/// a window is served by two threads.
pub fn choose_task(mode: LaunchMode, use_gui: &Result<bool, String>) -> (r: Result<Task, String>)
    ensures
        match task_of(mode, choice_view(*use_gui)) {
            Ok(task) => r is Ok && r->Ok_0 == task,
            Err(e) => r is Err && r->Err_0@ == e,
        },
{
    match mode {
        LaunchMode::Help => Ok(Task::ShowHelp),
        LaunchMode::Version => Ok(Task::ShowVersion),
        _ => match use_gui {
            Err(e) => Err(copy_text(e)),
            Ok(b) => if *b {
                Ok(Task::RunDesktop)
            } else {
                Ok(Task::RunServer)
            },
        },
    }
}

/// A panic on the main thread without a window always aborts, and no other ever does.
pub proof fn law_only_the_main_thread_aborts(
    on_main_thread: bool,
    desktop_active: bool,
    is_first: bool,
)
    ensures
        (after_panic(on_main_thread, desktop_active, is_first) == PanicAction::ReportAndAbort
            || after_panic(on_main_thread, desktop_active, is_first)
            == PanicAction::AlertAndAbort) <==> on_main_thread && !desktop_active,
{
}

/// What a line shows as plain text.
pub open spec fn plain_text(line: Seq<(Seq<char>, Option<NamedColor>)>) -> Seq<char>
    decreases line.len(),
{
    if line.len() == 0 {
        Seq::empty()
    } else {
        plain_text(line.drop_last()) + line.last().0
    }
}

proof fn lemma_plain_concat(
    a: Seq<(Seq<char>, Option<NamedColor>)>,
    b: Seq<(Seq<char>, Option<NamedColor>)>,
)
    ensures
        plain_text(a + b) == plain_text(a) + plain_text(b),
    decreases b.len(),
{
    if b.len() == 0 {
        assert(a + b =~= a);
        assert(plain_text(a) + plain_text(b) =~= plain_text(a));
    } else {
        lemma_plain_concat(a, b.drop_last());
        assert((a + b).drop_last() =~= a + b.drop_last());
        assert((a + b).last() == b.last());
        assert(plain_text(a + b) =~= plain_text(a) + plain_text(b));
    }
}

/// The line on how to connect names each edition that is enabled, with its address and nothing
/// of the other, and a bar between them where there are both.
pub proof fn law_each_enabled_edition_is_named(java: Seq<char>, bedrock: Seq<char>)
    ensures
        ({
            let start = "Server is now running. Connect using port: "@;
            let j = "Java Edition:"@ + " "@ + java;
            let b = "Bedrock Edition:"@ + " "@ + bedrock;
            &&& plain_text(running(None, None)) == start
            &&& plain_text(running(Some(java), None)) == start + j
            &&& plain_text(running(None, Some(bedrock))) == start + b
            &&& plain_text(running(Some(java), Some(bedrock))) == start + j + " | "@ + b
        }),
{
    let start = seq![("Server is now running. Connect using port: "@, None::<NamedColor>)];
    let j = edition("Java Edition:"@, NamedColor::Yellow, Some(java));
    let b = edition("Bedrock Edition:"@, NamedColor::Gold, Some(bedrock));
    let bar = seq![(" | "@, None::<NamedColor>)];
    let none = Seq::<(Seq<char>, Option<NamedColor>)>::empty();
    lemma_three("Java Edition:"@, NamedColor::Yellow, java);
    lemma_three("Bedrock Edition:"@, NamedColor::Gold, bedrock);
    assert(start.drop_last() =~= none);
    assert(bar.drop_last() =~= none);
    reveal_with_fuel(plain_text, 2);
    assert(plain_text(start) =~= "Server is now running. Connect using port: "@);
    assert(plain_text(bar) =~= " | "@);
    assert(running(None, None) =~= start);
    assert(running(Some(java), None) =~= start + j);
    assert(running(None, Some(bedrock)) =~= start + b);
    assert(running(Some(java), Some(bedrock)) =~= start + j + bar + b);
    lemma_plain_concat(start, j);
    lemma_plain_concat(start, b);
    lemma_plain_concat(start + j, bar);
    lemma_plain_concat(start + j + bar, b);
}

proof fn lemma_three(name: Seq<char>, color: NamedColor, address: Seq<char>)
    ensures
        plain_text(edition(name, color, Some(address))) == name + " "@ + address,
{
    let e = edition(name, color, Some(address));
    reveal_with_fuel(plain_text, 4);
    assert(e.drop_last().last() == e[1]);
    assert(e.drop_last().drop_last().last() == e[0]);
    assert(e.drop_last().drop_last().drop_last().len() == 0);
    assert(plain_text(e) =~= name + " "@ + address);
}

/// The wait for plugins does not count for a start: whole milliseconds of the rest are shown.
pub proof fn law_plugin_waits_do_not_count(millis: u64, rest: u128, wait: u128)
    requires
        rest < 1_000_000,
        millis * 1_000_000 + rest + wait <= u128::MAX,
    ensures
        start_millis((millis * 1_000_000 + rest + wait) as u128, wait) == millis,
        wait > 0 ==> start_millis((wait - 1) as u128, wait) == 0,
{
}

/// What is done after a panic: the first one is reported, a later one is only told of.
pub proof fn law_the_first_panic_is_reported(on_main_thread: bool, desktop_active: bool)
    ensures
        after_panic(true, false, true) == PanicAction::ReportAndAbort,
        after_panic(true, false, false) == PanicAction::AlertAndAbort,
        !on_main_thread || desktop_active ==> after_panic(on_main_thread, desktop_active, true)
            == PanicAction::StopServer && after_panic(on_main_thread, desktop_active, false)
            == PanicAction::Alert,
{
}

/// An end without a failure is not reported; a failure is reported with its text, and a panic
/// by itself. A server that panicked or failed exits with a code that is not zero.
pub proof fn law_only_failures_are_reported(e: Seq<char>, panicked: bool, exit_code: i32)
    ensures
        supervisor_report(OutcomeModel::Done) is None,
        window_report(OutcomeModel::Done) is None,
        supervisor_report(OutcomeModel::Failed(e)) == Some("Server supervisor failed: "@ + e),
        window_report(OutcomeModel::Failed(e)) == Some("Unable to open the server window: "@ + e),
        supervisor_report(OutcomeModel::Panicked) is Some,
        window_report(OutcomeModel::Panicked) is Some,
        ({
            let (text, code) = backend_report(panicked, exit_code);
            &&& text is Some <==> panicked || exit_code != 0
            &&& code == 0 <==> text is None
            &&& !panicked ==> code == exit_code
            &&& panicked ==> code == 1
        }),
{
}

/// Help and version are shown whatever there is to show windows on; else the program runs with a
/// window just where there is to be one, and fails where there cannot be.
pub proof fn law_programs_do_what_they_are_asked(mode: LaunchMode, use_gui: Result<bool, Seq<char>>)
    ensures
        task_of(LaunchMode::Help, use_gui) == Ok::<Task, Seq<char>>(Task::ShowHelp),
        task_of(LaunchMode::Version, use_gui) == Ok::<Task, Seq<char>>(Task::ShowVersion),
        mode == LaunchMode::Auto || mode == LaunchMode::Gui || mode == LaunchMode::Headless ==> {
            &&& task_of(mode, Ok(true)) == Ok::<Task, Seq<char>>(Task::RunDesktop)
            &&& task_of(mode, Ok(false)) == Ok::<Task, Seq<char>>(Task::RunServer)
            &&& use_gui matches Err(e) ==> task_of(mode, use_gui) == Err::<Task, Seq<char>>(e)
        },
{
}

/// A run starts with a line that names the program, its version and both protocols; then come
/// one warning and three links.
pub proof fn law_runs_start_with_their_versions(
    version: Seq<char>,
    java_protocol: nat,
    bedrock_version: Seq<char>,
    bedrock_protocol: nat,
    k: int,
)
    ensures
        plain_text(starting(version, java_protocol, bedrock_version, bedrock_protocol))
            == "Starting "@ + "Pumpkin"@ + " "@ + version + " Java Minecraft (Protocol "@ + decimal(
            java_protocol,
        ) + ") | "@ + bedrock_version + " Bedrock (Protocol "@ + decimal(bedrock_protocol) + ")"@,
        support_notices().len() == 4,
        0 <= k < 4 ==> (support_notices()[k].0 <==> k == 0),
        plain_text(support_notices()[0].1) == "Pumpkin is currently under heavy development!"@,
{
    let s = starting(version, java_protocol, bedrock_version, bedrock_protocol);
    lemma_plain_push(s.take(0), s[0]);
    lemma_plain_push(s.take(1), s[1]);
    lemma_plain_push(s.take(2), s[2]);
    lemma_plain_push(s.take(3), s[3]);
    lemma_plain_push(s.take(4), s[4]);
    lemma_plain_push(s.take(5), s[5]);
    lemma_plain_push(s.take(6), s[6]);
    lemma_plain_push(s.take(7), s[7]);
    lemma_plain_push(s.take(8), s[8]);
    lemma_plain_push(s.take(9), s[9]);
    lemma_plain_push(s.take(10), s[10]);
    assert(s.take(0).push(s[0]) =~= s.take(1));
    assert(s.take(1).push(s[1]) =~= s.take(2));
    assert(s.take(2).push(s[2]) =~= s.take(3));
    assert(s.take(3).push(s[3]) =~= s.take(4));
    assert(s.take(4).push(s[4]) =~= s.take(5));
    assert(s.take(5).push(s[5]) =~= s.take(6));
    assert(s.take(6).push(s[6]) =~= s.take(7));
    assert(s.take(7).push(s[7]) =~= s.take(8));
    assert(s.take(8).push(s[8]) =~= s.take(9));
    assert(s.take(9).push(s[9]) =~= s.take(10));
    assert(s.take(10).push(s[10]) =~= s.take(11));
    assert(s.take(11) =~= s);
    assert(plain_text(s.take(0)) =~= Seq::<char>::empty());
    assert(plain_text(s.take(1)) =~= "Starting "@);
    let first = support_notices()[0].1;
    assert(first.drop_last().len() == 0);
    reveal_with_fuel(plain_text, 2);
    assert(plain_text(first) =~= "Pumpkin is currently under heavy development!"@);
}

proof fn lemma_plain_push(
    line: Seq<(Seq<char>, Option<NamedColor>)>,
    span: (Seq<char>, Option<NamedColor>),
)
    ensures
        plain_text(line.push(span)) == plain_text(line) + span.0,
{
    assert(line.push(span).drop_last() =~= line);
}

} // verus!

//! The decisions behind the window's buttons, labels and close request.

use super::history::{recorded, CommandHistory};
use super::state::{
    command_error, start_error, stopping, with_command, GuiHandle, GuiModel,
};
use super::text::{trim, trim_text};
use super::types::{
    has_stopped, is_terminal, keep_last, option_text, push_bounded, starting_snapshot, Level,
    ServerStatus,
};
use crate::text::{decimal, push_decimal};
use std::collections::VecDeque;
use vstd::prelude::*;

verus! {

/// The colours of the window's accents.
#[derive(Clone, Copy, Debug, PartialEq, Eq, Structural)]
pub enum Accent {
    Orange,
    Green,
    Red,
    Muted,
}

#[derive(Clone, Copy, Debug, PartialEq, Eq, Structural)]
pub enum ServerControlAction {
    Start,
    Stop,
}

/// The button that starts or stops the server.
pub struct ServerControl {
    pub action: ServerControlAction,
    pub label: &'static str,
    pub enabled: bool,
    pub hint: &'static str,
}

/// A server that is gone can be started, any other stopped; a closing window does
/// neither, and a stop is not repeated.
pub fn server_controls(status: ServerStatus, closing: bool) -> (r: ServerControl)
    ensures
        r.action == (if is_terminal(status) {
            ServerControlAction::Start
        } else {
            ServerControlAction::Stop
        }),
        r.enabled == (!closing && status != ServerStatus::Stopping),
        r.label@ == (if is_terminal(status) {
            "Start server"@
        } else {
            "Stop server"@
        }),
        r.hint@ == (if is_terminal(status) {
            "Start the server again"@
        } else {
            "Save the worlds and stop the server"@
        }),
{
    if has_stopped(status) {
        ServerControl {
            action: ServerControlAction::Start,
            label: "Start server",
            enabled: !closing,
            hint: "Start the server again",
        }
    } else {
        ServerControl {
            action: ServerControlAction::Stop,
            label: "Stop server",
            enabled: !closing && status != ServerStatus::Stopping,
            hint: "Save the worlds and stop the server",
        }
    }
}

/// What the state becomes when the button is used.
pub open spec fn controlled(m: GuiModel, action: ServerControlAction) -> GuiModel {
    match action {
        ServerControlAction::Stop => stopping(m),
        ServerControlAction::Start => if start_error(m) is None {
            GuiModel { snapshot: starting_snapshot(), desired_running: Some(true), ..m }
        } else {
            m
        },
    }
}

/// Uses the button. It says whether the server of this process has to be told to stop,
/// and a refused start replaces the shown error.
pub fn press_control(
    handle: &mut GuiHandle,
    action: ServerControlAction,
    error: &mut Option<String>,
) -> (r: bool)
    requires
        old(handle)@.wf(),
    ensures
        final(handle)@.wf(),
        final(handle)@ == controlled(old(handle)@, action),
        r == (action == ServerControlAction::Stop && super::state::stoppable(old(handle)@) && old(
            handle,
        )@.desired_running is None),
        option_text(*final(error)) == (match action {
            ServerControlAction::Stop => option_text(*old(error)),
            ServerControlAction::Start => start_error(old(handle)@),
        }),
{
    match action {
        ServerControlAction::Stop => handle.request_stop(),
        ServerControlAction::Start => {
            *error = match handle.request_start() {
                Ok(()) => None,
                Err(e) => Some(e),
            };
            false
        },
    }
}

/// What the window is told in answer to a close request.
#[derive(Clone, Copy, Debug, PartialEq, Eq, Structural)]
pub enum CloseCommand {
    Close,
    CancelClose,
}

/// A frame of the closing, for a window that waits for the server's end or not: whether it
/// waits afterwards, whether a stop is asked for, and what the window is told.
pub open spec fn close_step(
    waits: bool,
    status: ServerStatus,
    close_clicked: bool,
) -> (bool, bool, Option<CloseCommand>) {
    if waits && is_terminal(status) {
        (true, false, Some(CloseCommand::Close))
    } else if close_clicked && !is_terminal(status) {
        (true, !waits, Some(CloseCommand::CancelClose))
    } else {
        (waits, false, None)
    }
}

/// Decides a frame of the closing. A close never bypasses the server's shutdown: the
/// window stays until the server is gone, and asks for a stop once. The result says
/// whether to ask, and what to tell the window.
pub fn update_close_state(
    status: ServerStatus,
    close_clicked: bool,
    close_when_stopped: &mut bool,
) -> (r: (bool, Option<CloseCommand>))
    ensures
        (*final(close_when_stopped), r.0, r.1) == close_step(
            *old(close_when_stopped),
            status,
            close_clicked,
        ),
{
    if *close_when_stopped && has_stopped(status) {
        (false, Some(CloseCommand::Close))
    } else if close_clicked && !has_stopped(status) {
        let request_stop = !*close_when_stopped;
        *close_when_stopped = true;
        (request_stop, Some(CloseCommand::CancelClose))
    } else {
        (false, None)
    }
}

/// Runs a frame of the window's closing, which may also have been asked for from outside.
/// The result says whether the server of this process has to be told to stop, and what to
/// tell the window.
pub fn close_frame(
    handle: &mut GuiHandle,
    close_clicked: bool,
    close_when_stopped: &mut bool,
) -> (r: (bool, Option<CloseCommand>))
    requires
        old(handle)@.wf(),
    ensures
        final(handle)@.wf(),
        ({
            let m = old(handle)@;
            let (waits, asks, command) = close_step(
                *old(close_when_stopped) || m.close_requested,
                m.snapshot.status,
                close_clicked,
            );
            &&& *final(close_when_stopped) == waits
            &&& r.1 == command
            &&& r.0 == (asks && super::state::stoppable(m) && m.desired_running is None)
            &&& final(handle)@ == (if asks {
                stopping(m)
            } else {
                m
            })
        }),
{
    let snapshot = handle.snapshot(0);
    if handle.close_requested() {
        *close_when_stopped = true;
    }
    let (asks, command) = update_close_state(snapshot.status, close_clicked, close_when_stopped);
    let tell = if asks {
        handle.request_stop()
    } else {
        false
    };
    (tell, command)
}

/// The window closes only after the server's end, and a click before that is cancelled.
pub proof fn law_a_close_waits_for_the_end(waits: bool, status: ServerStatus, close_clicked: bool)
    ensures
        close_step(waits, status, close_clicked).2 == Some(CloseCommand::Close) ==> is_terminal(
            status,
        ),
        close_clicked && !is_terminal(status) ==> close_step(waits, status, close_clicked).2
            == Some(CloseCommand::CancelClose),
{
}

/// A window that waits goes on waiting and asks for no further stop; without a click on
/// close, the end of a server leaves its window open for another start.
pub proof fn law_a_stop_is_asked_for_once(status: ServerStatus, close_clicked: bool)
    ensures
        close_step(true, status, close_clicked).0,
        !close_step(true, status, close_clicked).1,
        close_step(false, status, false) == (false, false, None::<CloseCommand>),
{
}

/// The label of a status.
pub fn status_label(status: ServerStatus) -> (r: (&'static str, Accent))
    ensures
        r.0@ == (match status {
            ServerStatus::Starting => "Starting"@,
            ServerStatus::Running => "Running"@,
            ServerStatus::Stopping => "Stopping"@,
            ServerStatus::Stopped => "Stopped"@,
            ServerStatus::Failed => "Failed"@,
        }),
        r.1 == (match status {
            ServerStatus::Starting => Accent::Orange,
            ServerStatus::Running => Accent::Green,
            ServerStatus::Stopping => Accent::Orange,
            ServerStatus::Stopped => Accent::Muted,
            ServerStatus::Failed => Accent::Red,
        }),
{
    match status {
        ServerStatus::Starting => ("Starting", Accent::Orange),
        ServerStatus::Running => ("Running", Accent::Green),
        ServerStatus::Stopping => ("Stopping", Accent::Orange),
        ServerStatus::Stopped => ("Stopped", Accent::Muted),
        ServerStatus::Failed => ("Failed", Accent::Red),
    }
}

/// The colour of a log level.
pub fn log_color(level: Level) -> (r: Accent)
    ensures
        r == (match level {
            Level::Error => Accent::Red,
            Level::Warn => Accent::Orange,
            Level::Info => Accent::Green,
            _ => Accent::Muted,
        }),
{
    match level {
        Level::Error => Accent::Red,
        Level::Warn => Accent::Orange,
        Level::Info => Accent::Green,
        _ => Accent::Muted,
    }
}

/// The line below the console, where the console cannot be used.
pub fn status_message(
    closing: bool,
    status: ServerStatus,
    commands_enabled: bool,
) -> (r: Option<&'static str>)
    ensures
        (match r {
            Some(s) => Some(s@),
            None => None::<Seq<char>>,
        }) == (if closing || status == ServerStatus::Stopping {
            Some("Saving worlds and stopping safely…"@)
        } else if is_terminal(status) {
            Some("Server stopped. Start the server to run again."@)
        } else if status == ServerStatus::Starting {
            Some("Starting the server…"@)
        } else if !commands_enabled {
            Some("The server console is disabled in configuration."@)
        } else {
            None
        }),
{
    if closing || status == ServerStatus::Stopping {
        Some("Saving worlds and stopping safely…")
    } else if has_stopped(status) {
        Some("Server stopped. Start the server to run again.")
    } else if status == ServerStatus::Starting {
        Some("Starting the server…")
    } else if !commands_enabled {
        Some("The server console is disabled in configuration.")
    } else {
        None
    }
}

/// A number with at least two digits.
pub open spec fn padded(n: nat) -> Seq<char> {
    if n < 10 {
        seq!['0'] + decimal(n)
    } else {
        decimal(n)
    }
}

/// A duration in whole seconds as hours, minutes and seconds.
pub open spec fn uptime_text(seconds: nat) -> Seq<char> {
    padded(seconds / 3600) + seq![':'] + padded((seconds / 60) % 60) + seq![':'] + padded(
        seconds % 60,
    )
}

fn push_padded(s: &mut String, n: u64)
    ensures
        final(s)@ == old(s)@ + padded(n as nat),
{
    if n < 10 {
        s.push('0');
    }
    push_decimal(s, n);
    assert(s@ =~= old(s)@ + padded(n as nat));
}

/// A duration as hours, minutes and seconds.
pub fn format_uptime(seconds: u64) -> (s: String)
    ensures
        s@ == uptime_text(seconds as nat),
{
    let mut s = String::new();
    push_padded(&mut s, seconds / 3600);
    s.push(':');
    push_padded(&mut s, (seconds / 60) % 60);
    s.push(':');
    push_padded(&mut s, seconds % 60);
    assert(s@ =~= uptime_text(seconds as nat));
    s
}

/// The whole seconds of a duration in nanoseconds.
pub fn whole_seconds(nanos: u128) -> (r: u64)
    requires
        nanos / 1_000_000_000 <= u64::MAX,
    ensures
        r == nanos / 1_000_000_000,
{
    (nanos / 1_000_000_000) as u64
}

pub const SAMPLE_CAPACITY: usize = 90;

/// The tick rates that a graph shows, as the bits of floating-point numbers.
pub struct TickSamples {
    pub samples: VecDeque<u64>,
    pub last_sample: Option<u64>,
}

impl TickSamples {
    pub open spec fn wf(self) -> bool {
        self.samples@.len() <= SAMPLE_CAPACITY
    }

    /// Takes the rate of a new sample; only a running server's counts.
    pub fn record(&mut self, sample_id: u64, status: ServerStatus, tps_bits: u64)
        requires
            old(self).wf(),
        ensures
            final(self).wf(),
            final(self).last_sample == Some(sample_id),
            final(self).samples@ == (if old(self).last_sample != Some(sample_id) && status
                == ServerStatus::Running {
                keep_last(old(self).samples@.push(tps_bits), SAMPLE_CAPACITY as nat)
            } else {
                old(self).samples@
            }),
    {
        let known = match self.last_sample {
            Some(id) => id == sample_id,
            None => false,
        };
        if !known {
            self.last_sample = Some(sample_id);
            if status == ServerStatus::Running {
                push_bounded(&mut self.samples, tps_bits, SAMPLE_CAPACITY);
            }
        }
    }
}

/// The command line of the window.
pub struct CommandInput {
    pub history: CommandHistory,
    pub command: String,
    pub error: Option<String>,
}

impl CommandInput {
    /// Submits the text of the command line: an accepted command is remembered and the
    /// line cleared, a refused one stays with its error, and a blank one does nothing.
    pub fn submit(&mut self, handle: &mut GuiHandle)
        requires
            old(self).history@.wf(),
            old(handle)@.wf(),
        ensures
            final(self).history@.wf(),
            final(handle)@.wf(),
            ({
                let text = trim(old(self).command@);
                if text.len() == 0 {
                    &&& final(handle)@ == old(handle)@
                    &&& *final(self) == *old(self)
                } else {
                    match command_error(old(handle)@, text) {
                        None => {
                            &&& final(handle)@ == with_command(old(handle)@, text)
                            &&& final(self).history@ == recorded(old(self).history@, text)
                            &&& final(self).command@ == Seq::<char>::empty()
                            &&& final(self).error is None
                        },
                        Some(e) => {
                            &&& final(handle)@ == old(handle)@
                            &&& final(self).history@ == old(self).history@
                            &&& final(self).command@ == old(self).command@
                            &&& option_text(final(self).error) == Some(e)
                        },
                    }
                }
            }),
    {
        let text = trim_text(self.command.as_str());
        if text.as_str().is_empty() {
            return ;
        }
        match handle.submit_command(text.as_str()) {
            Ok(()) => {
                self.history.record(text);
                self.command = String::new();
                self.error = None;
            },
            Err(error) => {
                self.error = Some(error);
            },
        }
    }

    /// Takes the report of a player action: a queued command is remembered, and an
    /// error is shown.
    pub fn take_report(&mut self, report: Option<Result<String, String>>)
        requires
            old(self).history@.wf(),
        ensures
            final(self).history@.wf(),
            final(self).command@ == old(self).command@,
            match report {
                None => *final(self) == *old(self),
                Some(Ok(command)) => {
                    &&& final(self).history@ == recorded(old(self).history@, command@)
                    &&& final(self).error is None
                },
                Some(Err(e)) => {
                    &&& final(self).history@ == old(self).history@
                    &&& option_text(final(self).error) == Some(e@)
                },
            },
    {
        match report {
            None => {},
            Some(Ok(command)) => {
                self.history.record(command);
                self.error = None;
            },
            Some(Err(error)) => {
                self.error = Some(error);
            },
        }
    }
}

/// An uptime counts every second: its hours, and its minutes and seconds below sixty, in two
/// digits at least.
pub proof fn law_uptimes_count_every_second(seconds: nat, n: nat)
    ensures
        ({
            let hours = seconds / 3600;
            let minutes = seconds / 60 % 60;
            let rest = seconds % 60;
            &&& hours * 3600 + minutes * 60 + rest == seconds
            &&& minutes < 60 && rest < 60
            &&& uptime_text(seconds) == padded(hours) + ":"@ + padded(minutes) + ":"@ + padded(rest)
        }),
        crate::text::all_digits(padded(n)),
        crate::text::digits_value(padded(n)) == n,
        padded(n).len() >= 2,
        n < 100 ==> padded(n).len() == 2,
{
    reveal_strlit(":");
    assert(":"@ =~= seq![':']);
    crate::text::law_decimal_forms_spell_the_number(n);
    let d = decimal(n);
    if n < 10 {
        assert(d.len() == 1);
        let s = seq!['0'] + d;
        assert(s.drop_last() =~= seq!['0']);
        assert(s.last() == d[0]);
        assert(seq!['0'].drop_last() =~= Seq::<char>::empty());
        assert(d.drop_last() =~= Seq::<char>::empty());
        reveal_with_fuel(crate::text::digits_value, 3);
    } else {
        assert(decimal(n / 10).len() >= 1) by {
            crate::text::law_decimal_forms_spell_the_number(n / 10);
        }
        assert(d == decimal(n / 10).push(crate::text::digit_char(n % 10)));
        if n < 100 {
            assert(decimal(n / 10).len() == 1);
        }
    }
}

/// The button stops what runs and starts what is gone, where that is not refused: a started
/// server is shown anew, and the log and the queue stay.
pub proof fn law_the_button_does_what_it_says(m: GuiModel)
    ensures
        controlled(m, ServerControlAction::Stop).snapshot.status == (if m.snapshot.status
            == ServerStatus::Starting || m.snapshot.status == ServerStatus::Running {
            ServerStatus::Stopping
        } else {
            m.snapshot.status
        }),
        start_error(m) is Some ==> controlled(m, ServerControlAction::Start) == m,
        start_error(m) is None ==> {
            let after = controlled(m, ServerControlAction::Start);
            &&& after.snapshot.status == ServerStatus::Starting
            &&& after.snapshot.players.len() == 0
            &&& after.snapshot.last_error is None
            &&& after.desired_running == Some(true)
            &&& after.logs == m.logs && after.commands == m.commands
            &&& after.close_requested == m.close_requested
        },
{
}

/// A click on close while the server is there makes the window wait and asks for a stop at
/// first; a waiting window closes once the server is gone.
pub proof fn law_waiting_windows_close_at_the_end(
    waits: bool,
    status: ServerStatus,
    close_clicked: bool,
)
    ensures
        ({
            let gone = status == ServerStatus::Stopped || status == ServerStatus::Failed;
            let (waits_on, asks, told) = close_step(waits, status, close_clicked);
            &&& waits && gone ==> told == Some(CloseCommand::Close)
            &&& close_clicked && !gone ==> waits_on && told == Some(CloseCommand::CancelClose)
            &&& asks <==> close_clicked && !gone && !waits
            &&& waits ==> waits_on
            &&& !waits && (!close_clicked || gone) ==> !waits_on && told is None
        }),
{
}

} // verus!

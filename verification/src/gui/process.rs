//! Supervising a server process: the control channel's frames, and what the supervisor
//! does at each event. The process, the sockets and the clock are the caller's.

use super::state::{
    command_error, finished, logged, mirrored, seen_snapshot, stopping, update_head, with_command,
    GuiHandle, GuiModel, MAX_UPDATE_LOGS,
};
use super::types::{
    has_stopped, is_terminal, log_views, option_text, Level, LogLine, LogView, ServerSnapshot,
    ServerStatus,
};
use crate::bytes::{be_bytes, be_value, get_be, push_be, push_slice};
use crate::ids::{hyphenated, hyphenated_text, parse_uuid, uuid_parsed};
use crate::text::{chars_of, decimal, find, find_char, parse_u16, parsed_u16, push_decimal, string_of};
use vstd::prelude::*;
use vstd::slice::slice_subrange;

verus! {

pub const PROTOCOL_VERSION: u32 = 1;

pub const MAX_FRAME_BYTES: usize = 1_048_576;

/// Why a frame is refused.
#[derive(Clone, Copy, Debug, PartialEq, Eq, Structural)]
pub enum FrameError {
    /// The message would not fit a frame.
    TooLarge,
    /// The length is zero or exceeds a frame.
    InvalidLength,
    /// The bytes end before the frame does.
    UnexpectedEnd,
}

/// Collects a message that has to fit a frame.
pub struct BoundedBuffer {
    bytes: Vec<u8>,
}

impl View for BoundedBuffer {
    type V = Seq<u8>;

    closed spec fn view(&self) -> Seq<u8> {
        self.bytes@
    }
}

impl BoundedBuffer {
    pub fn new() -> (r: Self)
        ensures
            r@ == Seq::<u8>::empty(),
    {
        BoundedBuffer { bytes: Vec::new() }
    }

    /// Appends bytes that still fit; others are refused whole.
    pub fn write(&mut self, bytes: &[u8]) -> (r: Result<usize, FrameError>)
        requires
            old(self)@.len() <= MAX_FRAME_BYTES,
        ensures
            final(self)@.len() <= MAX_FRAME_BYTES,
            old(self)@.len() + bytes@.len() <= MAX_FRAME_BYTES ==> r == Ok::<usize, FrameError>(
                bytes@.len() as usize,
            ) && final(self)@ == old(self)@ + bytes@,
            old(self)@.len() + bytes@.len() > MAX_FRAME_BYTES ==> r == Err::<usize, FrameError>(
                FrameError::TooLarge,
            ) && final(self)@ == old(self)@,
    {
        if bytes.len() > MAX_FRAME_BYTES - self.bytes.len() {
            return Err(FrameError::TooLarge);
        }
        push_slice(&mut self.bytes, bytes);
        Ok(bytes.len())
    }

    /// The collected message.
    pub fn into_bytes(self) -> (r: Vec<u8>)
        ensures
            r@ == self@,
    {
        self.bytes
    }
}

/// The wire form of a message: its length in four bytes, then the message.
pub open spec fn framed(payload: Seq<u8>) -> Seq<u8> {
    be_bytes(payload.len(), 4) + payload
}

/// Frames a message. What does not fit is refused, and nothing of it is sent.
pub fn encode_frame(payload: &[u8]) -> (r: Result<Vec<u8>, FrameError>)
    ensures
        payload@.len() <= MAX_FRAME_BYTES ==> r is Ok && r->Ok_0@ == framed(payload@),
        payload@.len() > MAX_FRAME_BYTES ==> r is Err && r->Err_0 == FrameError::TooLarge,
{
    let mut buffer = BoundedBuffer::new();
    match buffer.write(payload) {
        Err(error) => Err(error),
        Ok(_) => {
            let mut out: Vec<u8> = Vec::new();
            push_be(&mut out, payload.len() as u128, 4);
            push_slice(&mut out, buffer.into_bytes().as_slice());
            assert(Seq::<u8>::empty() + payload@ =~= payload@);
            assert(out@ =~= framed(payload@));
            Ok(out)
        },
    }
}

/// The length that a frame's header announces.
pub fn frame_length(header: &[u8]) -> (r: Result<usize, FrameError>)
    requires
        header@.len() == 4,
    ensures
        1 <= be_value(header@) <= MAX_FRAME_BYTES ==> r == Ok::<usize, FrameError>(
            be_value(header@) as usize,
        ),
        !(1 <= be_value(header@) <= MAX_FRAME_BYTES) ==> r == Err::<usize, FrameError>(
            FrameError::InvalidLength,
        ),
{
    let length: u128 = get_be(header);
    if length == 0 || length > MAX_FRAME_BYTES as u128 {
        Err(FrameError::InvalidLength)
    } else {
        Ok(length as usize)
    }
}

/// What a frame at the front of `input` holds, and where it ends.
pub open spec fn unframed(input: Seq<u8>) -> Result<(Seq<u8>, int), FrameError> {
    if input.len() < 4 {
        Err(FrameError::UnexpectedEnd)
    } else {
        let length = be_value(input.take(4)) as int;
        if !(1 <= length <= MAX_FRAME_BYTES) {
            Err(FrameError::InvalidLength)
        } else if input.len() < 4 + length {
            Err(FrameError::UnexpectedEnd)
        } else {
            Ok((input.subrange(4, 4 + length), 4 + length))
        }
    }
}

/// Reads the message of a frame at the front of `input`, and where the frame ends.
pub fn decode_frame<'a>(input: &'a [u8]) -> (r: Result<(&'a [u8], usize), FrameError>)
    ensures
        match unframed(input@) {
            Ok((payload, end)) => r is Ok && r->Ok_0.0@ == payload && r->Ok_0.1 == end,
            Err(e) => r is Err && r->Err_0 == e,
        },
{
    if input.len() < 4 {
        return Err(FrameError::UnexpectedEnd);
    }
    let header = slice_subrange(input, 0, 4);
    assert(header@ =~= input@.take(4));
    match frame_length(header) {
        Err(error) => Err(error),
        Ok(length) => {
            if input.len() - 4 < length {
                return Err(FrameError::UnexpectedEnd);
            }
            Ok((slice_subrange(input, 4, 4 + length), 4 + length))
        },
    }
}

/// Reading a frame gives back the message that was framed, whatever follows it.
pub proof fn law_frame_round_trip(payload: Seq<u8>, rest: Seq<u8>)
    requires
        1 <= payload.len() <= MAX_FRAME_BYTES,
    ensures
        unframed(framed(payload) + rest) == Ok::<(Seq<u8>, int), FrameError>(
            (payload, (4 + payload.len()) as int),
        ),
{
    crate::bytes::lemma_be_len(payload.len(), 4);
    crate::bytes::lemma_pow256_values();
    crate::bytes::lemma_be_round_trip(payload.len(), 4);
    let input = framed(payload) + rest;
    assert(input.take(4) =~= be_bytes(payload.len(), 4));
    assert(input.subrange(4, 4 + payload.len() as int) =~= payload);
}

/// What the server's process is told through its environment: the port and the token
/// of its supervisor.
pub open spec fn channel_text(port: u16, token: u128) -> Seq<char> {
    decimal(port as nat) + seq![':'] + hyphenated_text(token)
}

/// The text that names a control channel.
pub fn format_channel(port: u16, token: u128) -> (s: String)
    ensures
        s@ == channel_text(port, token),
{
    let mut s = String::new();
    push_decimal(&mut s, port as u64);
    s.push(':');
    s.append(hyphenated(token).as_str());
    assert(s@ =~= channel_text(port, token));
    s
}

/// Why a control channel cannot be used.
#[derive(Clone, Copy, Debug, PartialEq, Eq, Structural)]
pub enum ChannelError {
    /// The environment names none.
    Missing,
    /// The name has no colon.
    Invalid,
    /// The port is not a 16-bit number.
    Port,
    /// The token is not an id.
    Token,
}

/// The port and token of a control channel, where the token's text was read as given.
pub open spec fn channel_of(
    channel: Seq<char>,
    token: Option<u128>,
) -> Result<(u16, u128), ChannelError> {
    let colon = find(channel, ':') as int;
    if colon >= channel.len() {
        Err(ChannelError::Invalid)
    } else {
        match parsed_u16(channel.take(colon)) {
            None => Err(ChannelError::Port),
            Some(port) => match token {
                None => Err(ChannelError::Token),
                Some(token) => Ok((port, token)),
            },
        }
    }
}

/// The text behind the first colon.
pub open spec fn token_text(channel: Seq<char>) -> Seq<char> {
    let colon = find(channel, ':') as int;
    if colon < channel.len() {
        channel.skip(colon + 1)
    } else {
        Seq::empty()
    }
}

/// Reads the port and the token of a control channel, given what the token's text was
/// read as.
pub fn channel_parts(channel: &[char], token: Option<u128>) -> (r: Result<(u16, u128), ChannelError>)
    ensures
        r == channel_of(channel@, token),
{
    let colon: usize = find_char(channel, ':');
    if colon >= channel.len() {
        return Err(ChannelError::Invalid);
    }
    let head = slice_subrange(channel, 0, colon);
    assert(head@ =~= channel@.take(colon as int));
    match parse_u16(head) {
        None => Err(ChannelError::Port),
        Some(port) => match token {
            None => Err(ChannelError::Token),
            Some(token) => Ok((port, token)),
        },
    }
}

/// Reads the control channel that the environment names.
pub fn parse_channel(channel: Option<&str>) -> (r: Result<(u16, u128), ChannelError>)
    ensures
        r == (match channel {
            None => Err(ChannelError::Missing),
            Some(text) => channel_of(text@, uuid_parsed(token_text(text@))),
        }),
        forall|port: u16, token: u128|
            channel matches Some(text) && text@ == #[trigger] channel_text(port, token) ==> r
                == Ok::<(u16, u128), ChannelError>((port, token)),
{
    let text = match channel {
        None => return Err(ChannelError::Missing),
        Some(text) => text,
    };
    let chars = chars_of(text);
    let colon: usize = find_char(chars.as_slice(), ':');
    let tail = if colon < chars.len() {
        slice_subrange(chars.as_slice(), colon + 1, chars.len())
    } else {
        slice_subrange(chars.as_slice(), chars.len(), chars.len())
    };
    assert(tail@ =~= token_text(text@));
    let token = parse_uuid(string_of(tail).as_str());
    proof {
        assert forall|port: u16, id: u128| text@ == #[trigger] channel_text(port, id) implies
            token == Some(id) && channel_of(text@, token) == Ok::<(u16, u128), ChannelError>(
            (port, id),
        ) by {
            let digits = decimal(port as nat);
            crate::text::law_decimal_round_trip(port);
            assert forall|i: int| 0 <= i < digits.len() implies #[trigger] text@[i] != ':' by {
                assert(crate::text::is_digit(digits[i]));
                assert(text@[i] == digits[i]);
            }
            crate::text::lemma_find_is(text@, ':', digits.len() as int);
            assert(text@.take(digits.len() as int) =~= digits);
            assert(token_text(text@) =~= hyphenated_text(id));
        }
    }
    channel_parts(chars.as_slice(), token)
}

/// Whether a greeting comes from the process that was started.
pub fn accepts_hello(version: u32, token: u128, expected: u128) -> (r: bool)
    ensures
        r == (version == PROTOCOL_VERSION && token == expected),
{
    version == PROTOCOL_VERSION && token == expected
}

/// Whether the supervisor's answer is one that the server understands.
pub fn accepts_ready(version: u32) -> (r: bool)
    ensures
        r == (version == PROTOCOL_VERSION),
{
    version == PROTOCOL_VERSION
}

/// What the supervisor does between two sessions.
#[derive(Clone, Copy, Debug, PartialEq, Eq, Structural)]
pub enum SupervisorStep {
    /// Stop supervising.
    Exit,
    /// Wait until a server is wanted.
    Wait,
    /// Run a server.
    RunSession,
}

/// A stop, the queue emptied, and then the end.
pub open spec fn closed(m: GuiModel, error: Option<Seq<char>>, elapsed_nanos: u128) -> GuiModel {
    finished(GuiModel { commands: Seq::empty(), ..stopping(m) }, error, elapsed_nanos)
}

/// The state between two sessions.
pub open spec fn between_sessions(
    m: GuiModel,
    should_run: bool,
    shutdown: bool,
    elapsed_nanos: u128,
) -> GuiModel {
    if shutdown && !is_terminal(m.snapshot.status) {
        closed(m, None, elapsed_nanos)
    } else if !shutdown && !should_run && m.snapshot.status == ServerStatus::Stopping {
        closed(m, None, elapsed_nanos)
    } else {
        m
    }
}

/// Decides what to do between two sessions. A stop that came before a process was
/// started ends at once.
pub fn supervisor_step(
    gui: &mut GuiHandle,
    should_run: bool,
    shutdown: bool,
    elapsed_nanos: u128,
) -> (r: SupervisorStep)
    requires
        old(gui)@.wf(),
    ensures
        final(gui)@.wf(),
        r == (if shutdown {
            SupervisorStep::Exit
        } else if should_run {
            SupervisorStep::RunSession
        } else {
            SupervisorStep::Wait
        }),
        final(gui)@ == between_sessions(old(gui)@, should_run, shutdown, elapsed_nanos),
{
    let snapshot = gui.snapshot(elapsed_nanos);
    if shutdown {
        if !has_stopped(snapshot.status) {
            gui.request_stop();
            gui.discard_commands();
            gui.finish(None, elapsed_nanos);
        }
        return SupervisorStep::Exit;
    }
    if !should_run {
        if snapshot.status == ServerStatus::Stopping {
            gui.discard_commands();
            gui.finish(None, elapsed_nanos);
        }
        return SupervisorStep::Wait;
    }
    SupervisorStep::RunSession
}

/// How a session ended.
pub enum SessionEnd {
    /// The process is reaped, or never was; the error, if there is one, is shown.
    Reaped(Option<String>),
    /// Waiting for the process failed, so it may still be there.
    WaitFailed(String),
}

/// The state after a session. Commands are refused and dropped before a start is
/// offered, an error is shown, and a failed wait is logged and offers no start.
pub open spec fn session_over(
    m: GuiModel,
    end: SessionEnd,
    timestamp: Seq<char>,
    elapsed_nanos: u128,
) -> GuiModel {
    let s = GuiModel { commands: Seq::empty(), ..stopping(m) };
    match end {
        SessionEnd::Reaped(error) => finished(s, option_text(error), elapsed_nanos),
        SessionEnd::WaitFailed(error) => GuiModel {
            logs: logged(
                s.logs,
                timestamp,
                Level::Error,
                "Unable to supervise the server: "@ + error@,
            ),
            ..s
        },
    }
}

/// Takes the end of a session, and says whether to go on supervising.
pub fn session_ended(
    gui: &mut GuiHandle,
    end: SessionEnd,
    timestamp: &str,
    elapsed_nanos: u128,
) -> (r: bool)
    requires
        old(gui)@.wf(),
    ensures
        final(gui)@.wf(),
        r == (end is Reaped),
        final(gui)@ == session_over(old(gui)@, end, timestamp@, elapsed_nanos),
{
    gui.request_stop();
    gui.discard_commands();
    match end {
        SessionEnd::Reaped(error) => {
            gui.finish(error, elapsed_nanos);
            true
        },
        SessionEnd::WaitFailed(error) => {
            let mut text = "Unable to supervise the server: ".to_owned();
            text.append(error.as_str());
            gui.append_log(timestamp, Level::Error, text.as_str());
            false
        },
    }
}

/// What happens to a session before its server is connected.
pub enum SessionEvent {
    /// The control channel could not be opened.
    BindFailed(String),
    /// The control channel is open.
    Bound,
    /// The process could not be started.
    SpawnFailed(String),
    /// The process was started; its number is known while it lives.
    Spawned(Option<u32>),
    /// The process is gone before it connected; the text is its status.
    ExitedEarly(String),
    /// The process did not connect.
    ConnectFailed(String),
    /// A stop came before the process connected.
    StoppedEarly,
    /// The process connected.
    Connected,
    /// The connection could not be acknowledged.
    ReadyFailed(String),
    /// The connection was acknowledged.
    ReadySent,
}

/// What a session does next.
pub enum SessionAction {
    /// End, with an error where there is one.
    End(Option<String>),
    /// Start the process.
    Spawn,
    /// Wait for the process to connect.
    AwaitBackend,
    /// Kill the process, which has opened nothing yet, reap it, and end.
    KillAndReap(Option<String>),
    /// Acknowledge the connection.
    SendReady,
    /// Wait for the process, which may be running, and end. It is never killed.
    CloseAndReap(String),
    /// Supervise the running server.
    Supervise,
}

/// The same over mathematical values.
pub enum SessionActionView {
    End(Option<Seq<char>>),
    Spawn,
    AwaitBackend,
    KillAndReap(Option<Seq<char>>),
    SendReady,
    CloseAndReap(Seq<char>),
    Supervise,
}

impl View for SessionAction {
    type V = SessionActionView;

    open spec fn view(&self) -> SessionActionView {
        match self {
            SessionAction::End(e) => SessionActionView::End(option_text(*e)),
            SessionAction::Spawn => SessionActionView::Spawn,
            SessionAction::AwaitBackend => SessionActionView::AwaitBackend,
            SessionAction::KillAndReap(e) => SessionActionView::KillAndReap(option_text(*e)),
            SessionAction::SendReady => SessionActionView::SendReady,
            SessionAction::CloseAndReap(e) => SessionActionView::CloseAndReap(e@),
            SessionAction::Supervise => SessionActionView::Supervise,
        }
    }
}

/// What a session does at an event, while a server is wanted or not.
pub open spec fn session_action(event: SessionEvent, wanted: bool) -> SessionActionView {
    match event {
        SessionEvent::BindFailed(e) => SessionActionView::End(
            Some("Unable to open the server control channel: "@ + e@),
        ),
        SessionEvent::Bound => if wanted {
            SessionActionView::Spawn
        } else {
            SessionActionView::End(None)
        },
        SessionEvent::SpawnFailed(e) => SessionActionView::End(
            Some("Unable to start the server process: "@ + e@),
        ),
        SessionEvent::Spawned(_) => if wanted {
            SessionActionView::AwaitBackend
        } else {
            SessionActionView::KillAndReap(None)
        },
        SessionEvent::ExitedEarly(status) => SessionActionView::End(
            Some("The server exited before connecting to its window: "@ + status@),
        ),
        SessionEvent::ConnectFailed(e) => SessionActionView::KillAndReap(
            Some("Unable to connect to the server process: "@ + e@),
        ),
        SessionEvent::StoppedEarly => SessionActionView::KillAndReap(None),
        SessionEvent::Connected => if wanted {
            SessionActionView::SendReady
        } else {
            SessionActionView::KillAndReap(None)
        },
        SessionEvent::ReadyFailed(e) => SessionActionView::CloseAndReap(
            "Unable to acknowledge the server connection: "@ + e@,
        ),
        SessionEvent::ReadySent => SessionActionView::Supervise,
    }
}

/// The shared state after an event of a session that is not connected yet. A process that
/// could not be started is an error of the log; what ends a session later is only shown.
pub open spec fn session_model(m: GuiModel, event: SessionEvent, timestamp: Seq<char>) -> GuiModel {
    match event {
        SessionEvent::Spawned(Some(pid)) => GuiModel {
            logs: logged(
                m.logs,
                timestamp,
                Level::Info,
                "Started server process (PID "@ + decimal(pid as nat) + ")."@,
            ),
            ..m
        },
        SessionEvent::SpawnFailed(e) => GuiModel {
            logs: logged(
                m.logs,
                timestamp,
                Level::Error,
                "Unable to start the server process: "@ + e@,
            ),
            ..m
        },
        SessionEvent::ReadyFailed(_) => stopping(m),
        _ => m,
    }
}

/// Two texts in a row.
fn joined(head: &str, tail: String) -> (s: String)
    ensures
        s@ == head@ + tail@,
{
    let mut s = head.to_owned();
    s.append(tail.as_str());
    s
}

/// Decides the next step of a session. From the first byte of the acknowledgement the
/// server may be running: then the state shows a stop, and the process is left to end
/// by itself.
pub fn session_step(
    gui: &mut GuiHandle,
    event: SessionEvent,
    wanted: bool,
    timestamp: &str,
) -> (r: SessionAction)
    requires
        old(gui)@.wf(),
    ensures
        final(gui)@.wf(),
        r@ == session_action(event, wanted),
        final(gui)@ == session_model(old(gui)@, event, timestamp@),
{
    if let SessionEvent::Spawned(Some(pid)) = event {
        let mut text = "Started server process (PID ".to_owned();
        push_decimal(&mut text, pid as u64);
        text.append(").");
        gui.append_log(timestamp, Level::Info, text.as_str());
    }
    match event {
        SessionEvent::BindFailed(e) => SessionAction::End(
            Some(joined("Unable to open the server control channel: ", e)),
        ),
        SessionEvent::Bound => if wanted {
            SessionAction::Spawn
        } else {
            SessionAction::End(None)
        },
        SessionEvent::SpawnFailed(e) => {
            let text = joined("Unable to start the server process: ", e);
            gui.append_log(timestamp, Level::Error, text.as_str());
            SessionAction::End(Some(text))
        },
        SessionEvent::Spawned(_) => if wanted {
            SessionAction::AwaitBackend
        } else {
            SessionAction::KillAndReap(None)
        },
        SessionEvent::ExitedEarly(status) => SessionAction::End(
            Some(joined("The server exited before connecting to its window: ", status)),
        ),
        SessionEvent::ConnectFailed(e) => SessionAction::KillAndReap(
            Some(joined("Unable to connect to the server process: ", e)),
        ),
        SessionEvent::StoppedEarly => SessionAction::KillAndReap(None),
        SessionEvent::Connected => if wanted {
            SessionAction::SendReady
        } else {
            SessionAction::KillAndReap(None)
        },
        SessionEvent::ReadyFailed(e) => {
            gui.request_stop();
            SessionAction::CloseAndReap(joined("Unable to acknowledge the server connection: ", e))
        },
        SessionEvent::ReadySent => SessionAction::Supervise,
    }
}

/// Once the acknowledgement may have been sent, the process is never killed.
pub proof fn law_an_acknowledged_server_is_never_killed(event: SessionEvent, wanted: bool)
    requires
        event is ReadyFailed || event is ReadySent,
    ensures
        !(session_action(event, wanted) is KillAndReap),
{
}

/// The supervision of a connected server.
pub struct Link {
    pub stopping: bool,
    pub disconnected: bool,
    pub final_update: bool,
    pub writer_open: bool,
    pub error: Option<String>,
}

pub struct LinkView {
    /// A stop was asked for; no more commands are sent.
    pub stopping: bool,
    /// No more updates come.
    pub disconnected: bool,
    /// An update showed the server's end.
    pub final_update: bool,
    /// The server can still be written to.
    pub writer_open: bool,
    pub error: Option<Seq<char>>,
}

impl View for Link {
    type V = LinkView;

    open spec fn view(&self) -> LinkView {
        LinkView {
            stopping: self.stopping,
            disconnected: self.disconnected,
            final_update: self.final_update,
            writer_open: self.writer_open,
            error: option_text(self.error),
        }
    }
}

/// The error of a whole run: a run that failed has one in any case.
pub open spec fn concluded(
    error: Option<Seq<char>>,
    last_error: Option<Seq<char>>,
    success: bool,
    status: Seq<char>,
) -> Option<Seq<char>> {
    if success {
        error
    } else if last_error is Some {
        last_error
    } else {
        Some("The server process exited with "@ + status + "."@)
    }
}

/// The first error stands.
pub open spec fn first_error(error: Option<Seq<char>>, later: Seq<char>) -> Option<Seq<char>> {
    match error {
        Some(e) => Some(e),
        None => Some(later),
    }
}

/// What happens to a connected server.
pub enum LinkEvent {
    /// The supervisor looks at what is wanted: whether a server is.
    Look(bool),
    /// Whoever wanted the server is gone.
    WishesGone,
    /// The stop could not be sent.
    StopFailed(String),
    /// The server sent an update.
    Updated(ServerSnapshot, Vec<LogLine>),
    /// The updates ended, with an error where there was one.
    UpdatesEnded(Option<String>),
    /// A command could not be sent.
    CommandFailed(String),
}

/// What the supervisor of a connected server does next.
#[derive(Clone, Copy, Debug, PartialEq, Eq, Structural)]
pub enum LinkAction {
    /// Wait for the next event.
    Continue,
    /// Tell the server to stop.
    SendStop,
    /// Close the connection to the server.
    CloseWriter,
}

/// The supervision after an event.
pub open spec fn linked(l: LinkView, event: LinkEvent) -> LinkView {
    match event {
        LinkEvent::Look(wanted) => LinkView { stopping: l.stopping || !wanted, ..l },
        LinkEvent::WishesGone => LinkView { stopping: true, ..l },
        LinkEvent::StopFailed(e) => LinkView {
            writer_open: false,
            error: first_error(l.error, "Unable to request server shutdown: "@ + e@),
            ..l
        },
        LinkEvent::Updated(snapshot, _) => LinkView {
            final_update: l.final_update || is_terminal(snapshot.status),
            ..l
        },
        LinkEvent::UpdatesEnded(e) => LinkView {
            disconnected: true,
            stopping: true,
            writer_open: false,
            error: if l.final_update {
                l.error
            } else {
                match e {
                    Some(e) => Some("The server control channel failed: "@ + e@),
                    None => Some("The server control channel closed unexpectedly."@),
                }
            },
            ..l
        },
        LinkEvent::CommandFailed(e) => LinkView {
            stopping: true,
            writer_open: false,
            error: Some("Unable to send a server command: "@ + e@),
            ..l
        },
    }
}

/// What the supervisor does at an event.
pub open spec fn link_action(l: LinkView, event: LinkEvent) -> LinkAction {
    match event {
        LinkEvent::Look(wanted) => if !l.stopping && !wanted && l.writer_open {
            LinkAction::SendStop
        } else {
            LinkAction::Continue
        },
        LinkEvent::WishesGone => if !l.stopping && l.writer_open {
            LinkAction::SendStop
        } else {
            LinkAction::Continue
        },
        LinkEvent::StopFailed(_) => LinkAction::CloseWriter,
        LinkEvent::Updated(_, _) => LinkAction::Continue,
        LinkEvent::UpdatesEnded(_) => LinkAction::CloseWriter,
        LinkEvent::CommandFailed(_) => LinkAction::CloseWriter,
    }
}

/// The shared state after an event.
pub open spec fn linked_model(l: LinkView, m: GuiModel, event: LinkEvent) -> GuiModel {
    match event {
        LinkEvent::Look(wanted) => if !l.stopping && !wanted {
            stopping(m)
        } else {
            m
        },
        LinkEvent::WishesGone => if !l.stopping {
            stopping(m)
        } else {
            m
        },
        LinkEvent::StopFailed(_) => m,
        LinkEvent::Updated(snapshot, logs) => mirrored(m, snapshot@, log_views(logs@)),
        LinkEvent::UpdatesEnded(_) => stopping(m),
        LinkEvent::CommandFailed(_) => stopping(m),
    }
}

impl Link {
    /// A server that has just been acknowledged.
    pub fn new() -> (r: Self)
        ensures
            r@ == (LinkView {
                stopping: false,
                disconnected: false,
                final_update: false,
                writer_open: true,
                error: None,
            }),
    {
        Link {
            stopping: false,
            disconnected: false,
            final_update: false,
            writer_open: true,
            error: None,
        }
    }

    /// Whether wishes for a stop still matter.
    pub fn heeds_wishes(&self) -> (r: bool)
        ensures
            r == !self@.stopping,
    {
        !self.stopping
    }

    /// Whether updates are still read.
    pub fn reads_updates(&self) -> (r: bool)
        ensures
            r == !self@.disconnected,
    {
        !self.disconnected
    }

    /// Whether commands are still sent.
    pub fn sends_commands(&self) -> (r: bool)
        ensures
            r == (!self@.stopping && self@.writer_open),
    {
        !self.stopping && self.writer_open
    }

    /// Takes an event while the process lives.
    pub fn step(&mut self, gui: &mut GuiHandle, event: LinkEvent) -> (r: LinkAction)
        requires
            old(gui)@.wf(),
        ensures
            final(gui)@.wf(),
            r == link_action(old(self)@, event),
            final(self)@ == linked(old(self)@, event),
            final(gui)@ == linked_model(old(self)@, old(gui)@, event),
    {
        match event {
            LinkEvent::Look(wanted) => {
                if !self.stopping && !wanted {
                    self.stopping = true;
                    gui.request_stop();
                    if self.writer_open {
                        return LinkAction::SendStop;
                    }
                }
                LinkAction::Continue
            },
            LinkEvent::WishesGone => {
                if !self.stopping {
                    self.stopping = true;
                    gui.request_stop();
                    if self.writer_open {
                        return LinkAction::SendStop;
                    }
                }
                LinkAction::Continue
            },
            LinkEvent::StopFailed(e) => {
                self.set_first_error(joined("Unable to request server shutdown: ", e));
                self.writer_open = false;
                LinkAction::CloseWriter
            },
            LinkEvent::Updated(snapshot, logs) => {
                self.final_update = self.final_update || has_stopped(snapshot.status);
                gui.apply_backend_update(snapshot, logs);
                LinkAction::Continue
            },
            LinkEvent::UpdatesEnded(e) => {
                if !self.final_update {
                    self.error = Some(
                        match e {
                            Some(e) => joined("The server control channel failed: ", e),
                            None => "The server control channel closed unexpectedly.".to_owned(),
                        },
                    );
                }
                self.disconnected = true;
                self.stopping = true;
                self.writer_open = false;
                gui.request_stop();
                LinkAction::CloseWriter
            },
            LinkEvent::CommandFailed(e) => {
                self.error = Some(joined("Unable to send a server command: ", e));
                gui.request_stop();
                self.stopping = true;
                self.writer_open = false;
                LinkAction::CloseWriter
            },
        }
    }

    fn set_first_error(&mut self, later: String)
        ensures
            final(self)@ == (LinkView { error: first_error(old(self)@.error, later@), ..old(self)@ }),
    {
        if self.error.is_none() {
            self.error = Some(later);
        }
    }

    /// The process is gone: the state shows a stop and the connection closes. Updates
    /// that were on their way still count.
    pub fn process_gone(&mut self, gui: &mut GuiHandle)
        ensures
            final(gui)@ == stopping(old(gui)@),
            final(self)@ == (LinkView { writer_open: false, ..old(self)@ }),
    {
        gui.request_stop();
        self.writer_open = false;
    }

    /// Takes an update that came after the process was gone.
    pub fn late_update(&mut self, gui: &mut GuiHandle, snapshot: ServerSnapshot, logs: Vec<LogLine>)
        requires
            old(gui)@.wf(),
        ensures
            final(gui)@.wf(),
            final(gui)@ == mirrored(old(gui)@, snapshot@, log_views(logs@)),
            final(self)@ == (LinkView {
                final_update: old(self)@.final_update || is_terminal(snapshot.status),
                ..old(self)@
            }),
    {
        self.final_update = self.final_update || has_stopped(snapshot.status);
        gui.apply_backend_update(snapshot, logs);
    }

    /// Takes a failure of the updates after the process was gone. It counts unless an
    /// update has shown the end, or another error stands.
    pub fn late_failure(&mut self, error: String)
        ensures
            final(self)@ == (LinkView {
                error: if old(self)@.final_update {
                    old(self)@.error
                } else {
                    first_error(old(self)@.error, "The server control channel failed: "@ + error@)
                },
                ..old(self)@
            }),
    {
        if !self.final_update {
            self.set_first_error(joined("The server control channel failed: ", error));
        }
    }

    /// The last logs did not come in time.
    pub fn drain_timed_out(&mut self)
        ensures
            final(self)@ == (LinkView {
                error: first_error(
                    old(self)@.error,
                    "Timed out receiving the final server logs."@,
                ),
                ..old(self)@
            }),
    {
        self.set_first_error("Timed out receiving the final server logs.".to_owned());
    }

    /// The error of the whole run. A process that failed has one in any case: what the
    /// server said last, or else its status.
    pub fn conclude(self, gui: &GuiHandle, success: bool, status: &str) -> (r: Option<String>)
        ensures
            option_text(r) == (if success {
                self@.error
            } else {
                match gui@.snapshot.last_error {
                    Some(e) => Some(e),
                    None => Some("The server process exited with "@ + status@ + "."@),
                }
            }),
            option_text(r) == concluded(
                self@.error,
                gui@.snapshot.last_error,
                success,
                status@,
            ),
    {
        if success {
            return self.error;
        }
        let snapshot = gui.snapshot(0);
        match snapshot.last_error {
            Some(error) => Some(error),
            None => {
                let mut text = "The server process exited with ".to_owned();
                text.append(status);
                text.append(".");
                Some(text)
            },
        }
    }
}

/// Once a stop was asked for, it stays so, nothing is sent but the stop, and no event
/// sends a second one.
pub proof fn law_a_stop_is_sent_once(l: LinkView, first: LinkEvent, second: LinkEvent)
    requires
        link_action(l, first) == LinkAction::SendStop,
    ensures
        linked(l, first).stopping,
        linked(linked(l, first), second).stopping,
        link_action(linked(l, first), second) != LinkAction::SendStop,
{
}

/// A server that showed its end is not blamed for closing its connection.
pub proof fn law_a_clean_end_is_no_error(l: LinkView, snapshot: ServerSnapshot, logs: Vec<LogLine>, e: Option<String>)
    requires
        is_terminal(snapshot.status),
        l.error is None,
    ensures
        linked(linked(l, LinkEvent::Updated(snapshot, logs)), LinkEvent::UpdatesEnded(e)).error is None,
{
}

/// What a server is told through the control channel.
pub enum Control {
    Command(String),
    Stop,
}

/// The server's state after a message from its window. A refused command is logged.
pub open spec fn obeyed(m: GuiModel, control: Control, timestamp: Seq<char>) -> GuiModel {
    match control {
        Control::Stop => stopping(m),
        Control::Command(command) => match command_error(m, command@) {
            None => with_command(m, command@),
            Some(e) => GuiModel { logs: logged(m.logs, timestamp, Level::Warn, e), ..m },
        },
    }
}

/// Takes a message from the window, and says whether the server of this process has to
/// be told to stop.
pub fn obey_control(gui: &mut GuiHandle, control: Control, timestamp: &str) -> (r: bool)
    requires
        old(gui)@.wf(),
    ensures
        final(gui)@.wf(),
        final(gui)@ == obeyed(old(gui)@, control, timestamp@),
        r == (control is Stop && super::state::stoppable(old(gui)@) && old(
            gui,
        )@.desired_running is None),
{
    match control {
        Control::Stop => gui.request_stop(),
        Control::Command(command) => {
            match gui.submit_command(command.as_str()) {
                Ok(()) => {},
                Err(error) => {
                    gui.append_log(timestamp, Level::Warn, error.as_str());
                },
            }
            false
        },
    }
}

/// Makes one of the updates that follow the server's end, and says whether it is the last:
/// they go on until one has no log rows left to carry.
pub fn final_update(gui: &mut GuiHandle, elapsed_nanos: u128) -> (r: (
    ServerSnapshot,
    Vec<LogLine>,
    bool,
))
    ensures
        r.0@ == seen_snapshot(old(gui)@, elapsed_nanos),
        log_views(r.1@) == update_head(old(gui)@.logs),
        r.2 == (old(gui)@.logs.len() == 0),
        final(gui)@ == (GuiModel {
            logs: old(gui)@.logs.skip(update_head(old(gui)@.logs).len() as int),
            ..old(gui)@
        }),
{
    let (snapshot, logs) = gui.backend_update(elapsed_nanos);
    assert(log_views(logs@).len() == logs@.len());
    let drained = logs.len() == 0;
    (snapshot, logs, drained)
}

/// The log rows that `n` updates carry, one after the other.
pub open spec fn carried(logs: Seq<LogView>, n: nat) -> Seq<LogView>
    decreases n,
{
    if n == 0 {
        Seq::empty()
    } else {
        update_head(logs) + carried(logs.skip(update_head(logs).len() as int), (n - 1) as nat)
    }
}

/// No row is lost or sent twice on the way: enough updates carry exactly the log, in order.
pub proof fn law_updates_carry_the_whole_log(logs: Seq<LogView>, n: nat)
    requires
        logs.len() <= n * MAX_UPDATE_LOGS,
    ensures
        carried(logs, n) == logs,
    decreases n,
{
    if n == 0 {
        assert(logs =~= Seq::<LogView>::empty());
    } else {
        let head = update_head(logs);
        let rest = logs.skip(head.len() as int);
        law_updates_carry_the_whole_log(rest, (n - 1) as nat);
        assert(head + rest =~= logs);
    }
}

/// A frame is four bytes longer than its message, and begins with the message's length.
pub proof fn law_frames_announce_their_length(payload: Seq<u8>)
    requires
        payload.len() <= 0x10_0000,
    ensures
        framed(payload).len() == payload.len() + 4,
        be_value(framed(payload).take(4)) == payload.len(),
        framed(payload).skip(4) == payload,
{
    crate::bytes::lemma_be_len(payload.len(), 4);
    crate::bytes::lemma_pow256_values();
    crate::bytes::lemma_be_round_trip(payload.len(), 4);
    assert(framed(payload).take(4) =~= be_bytes(payload.len(), 4));
    assert(framed(payload).skip(4) =~= payload);
}

/// The control channel that a server is told of is the one that it reads back, and a text that
/// is no channel is refused by its first fault.
pub proof fn law_channels_are_read_back(port: u16, token: u128, read: Option<u128>)
    ensures
        channel_of(channel_text(port, token), Some(token)) == Ok::<(u16, u128), ChannelError>(
            (port, token),
        ),
        channel_of(channel_text(port, token), None) == Err::<(u16, u128), ChannelError>(
            ChannelError::Token,
        ),
        token_text(channel_text(port, token)) == hyphenated_text(token),
        channel_of(decimal(port as nat), read) == Err::<(u16, u128), ChannelError>(
            ChannelError::Invalid,
        ),
        channel_of(seq![':'], read) == Err::<(u16, u128), ChannelError>(ChannelError::Port),
{
    let s = channel_text(port, token);
    let digits = decimal(port as nat);
    let n = digits.len() as int;
    crate::text::law_decimal_round_trip(port);
    assert forall|i: int| 0 <= i < n implies #[trigger] digits[i] != ':' by {
        assert(crate::text::is_digit(digits[i]));
    }
    assert forall|i: int| 0 <= i < n implies #[trigger] s[i] != ':' by {
        assert(s[i] == digits[i]);
    }
    crate::text::lemma_find_is(s, ':', n);
    crate::text::lemma_find_is(digits, ':', n);
    crate::text::lemma_find_is(seq![':'], ':', 0);
    assert(s.take(n) =~= digits);
    assert(s.skip(n + 1) =~= hyphenated_text(token));
    assert(seq![':'].take(0) =~= Seq::<char>::empty());
}

/// A server is started only while it is wanted, and one that nobody wants any more is killed
/// only before it was acknowledged. Every failure ends the session with its own text.
pub proof fn law_sessions_go_on_while_wanted(event: SessionEvent)
    ensures
        session_action(event, false) is Spawn == false,
        session_action(event, false) is SendReady == false,
        session_action(event, false) is AwaitBackend == false,
        event is Bound ==> session_action(event, true) is Spawn && session_action(event, false)
            == SessionActionView::End(None),
        event is Spawned ==> session_action(event, true) is AwaitBackend && session_action(
            event,
            false,
        ) == SessionActionView::KillAndReap(None),
        event is Connected ==> session_action(event, true) is SendReady && session_action(
            event,
            false,
        ) == SessionActionView::KillAndReap(None),
        event is ReadySent ==> session_action(event, true) is Supervise && session_action(
            event,
            false,
        ) is Supervise,
        event is StoppedEarly ==> session_action(event, true) == SessionActionView::KillAndReap(
            None,
        ),
        event matches SessionEvent::BindFailed(e) ==> session_action(event, true)
            == SessionActionView::End(Some("Unable to open the server control channel: "@ + e@)),
        event matches SessionEvent::SpawnFailed(e) ==> session_action(event, true)
            == SessionActionView::End(Some("Unable to start the server process: "@ + e@)),
        event matches SessionEvent::ExitedEarly(e) ==> session_action(event, true)
            == SessionActionView::End(
            Some("The server exited before connecting to its window: "@ + e@),
        ),
        event matches SessionEvent::ConnectFailed(e) ==> session_action(event, true)
            == SessionActionView::KillAndReap(
            Some("Unable to connect to the server process: "@ + e@),
        ),
        event matches SessionEvent::ReadyFailed(e) ==> session_action(event, true)
            == SessionActionView::CloseAndReap(
            "Unable to acknowledge the server connection: "@ + e@,
        ),
{
}

/// Before its server is connected a session only writes its log, at the level that the event
/// has; a failed acknowledgement shows a stop.
pub proof fn law_sessions_write_their_log(m: GuiModel, event: SessionEvent, timestamp: Seq<char>)
    ensures
        ({
            let after = session_model(m, event, timestamp);
            &&& after.commands == m.commands
            &&& !(event is ReadyFailed) ==> after.snapshot == m.snapshot && after.desired_running
                == m.desired_running
            &&& event is ReadyFailed ==> after == stopping(m)
            &&& event matches SessionEvent::Spawned(Some(pid)) ==> after.logs == logged(
                m.logs,
                timestamp,
                Level::Info,
                "Started server process (PID "@ + decimal(pid as nat) + ")."@,
            )
            &&& event matches SessionEvent::SpawnFailed(e) ==> after.logs == logged(
                m.logs,
                timestamp,
                Level::Error,
                "Unable to start the server process: "@ + e@,
            )
            &&& event == SessionEvent::Spawned(None) || event is Bound || event is BindFailed
                || event is ExitedEarly || event is ConnectFailed || event is StoppedEarly || event
                is Connected || event is ReadySent ==> after == m
        }),
{
}

/// The end of a session empties the queue. A reaped server is shown as gone, with its error; one
/// that could not be waited for is shown as stopping, and that is an error of the log.
pub proof fn law_sessions_end_with_an_empty_queue(
    m: GuiModel,
    end: SessionEnd,
    timestamp: Seq<char>,
    elapsed_nanos: u128,
)
    ensures
        ({
            let after = session_over(m, end, timestamp, elapsed_nanos);
            &&& after.commands.len() == 0
            &&& !after.snapshot.commands_enabled || !(m.snapshot.status == ServerStatus::Starting
                || m.snapshot.status == ServerStatus::Running)
            &&& end matches SessionEnd::Reaped(error) ==> {
                &&& error is Some ==> after.snapshot.status == ServerStatus::Failed
                &&& error is None ==> after.snapshot.status == ServerStatus::Stopped
                &&& after.snapshot.players.len() == 0
                &&& after.logs == m.logs
                &&& after.desired_running != Some(true)
            }
            &&& end matches SessionEnd::WaitFailed(error) ==> {
                &&& after.snapshot == stopping(m).snapshot
                &&& after.logs == logged(
                    m.logs,
                    timestamp,
                    Level::Error,
                    "Unable to supervise the server: "@ + error@,
                )
            }
        }),
{
}

/// Between two sessions a server that stops, or that a shutdown finds, is shown as gone; nothing
/// else happens.
pub proof fn law_stops_between_sessions_end_at_once(
    m: GuiModel,
    should_run: bool,
    shutdown: bool,
    elapsed_nanos: u128,
)
    ensures
        ({
            let after = between_sessions(m, should_run, shutdown, elapsed_nanos);
            let gone = m.snapshot.status == ServerStatus::Stopped || m.snapshot.status
                == ServerStatus::Failed;
            let ends = if shutdown {
                !gone
            } else {
                !should_run && m.snapshot.status == ServerStatus::Stopping
            };
            &&& !ends ==> after == m
            &&& ends ==> {
                &&& after.snapshot.status == ServerStatus::Stopped
                &&& after.snapshot.last_error is None
                &&& after.commands.len() == 0
                &&& after.snapshot.players.len() == 0
                &&& after.logs == m.logs
            }
        }),
{
}

/// A stop is sent just where one is wanted for the first time and the server can be written to;
/// the connection is closed just where it failed. Losing the wishes, the updates or a command
/// stops the server too.
pub proof fn law_links_stop_when_they_must(l: LinkView, m: GuiModel, event: LinkEvent)
    ensures
        ({
            let after = linked(l, event);
            let unwanted = event is WishesGone || event == LinkEvent::Look(false);
            let lost = event is UpdatesEnded || event is CommandFailed;
            &&& link_action(l, event) == LinkAction::SendStop <==> unwanted && !l.stopping
                && l.writer_open
            &&& link_action(l, event) == LinkAction::CloseWriter <==> lost || event is StopFailed
            &&& after.stopping <==> l.stopping || unwanted || lost
            &&& after.writer_open <==> l.writer_open && !lost && !(event is StopFailed)
            &&& after.disconnected <==> l.disconnected || event is UpdatesEnded
            &&& after.final_update <==> l.final_update || (event matches LinkEvent::Updated(s, _)
                && (s.status == ServerStatus::Stopped || s.status == ServerStatus::Failed))
            &&& linked_model(l, m, event) == (if lost || (unwanted && !l.stopping) {
                stopping(m)
            } else {
                match event {
                    LinkEvent::Updated(snapshot, logs) => mirrored(
                        m,
                        snapshot@,
                        log_views(logs@),
                    ),
                    _ => m,
                }
            })
        }),
{
}

/// A failed stop does not replace an earlier error. The end of the updates is an error unless
/// the server has shown its own end, and a command that could not be sent is one in any case.
pub proof fn law_links_keep_their_errors(l: LinkView, event: LinkEvent)
    ensures
        ({
            let after = linked(l, event).error;
            &&& event is Look || event is WishesGone || event is Updated ==> after == l.error
            &&& event matches LinkEvent::StopFailed(e) ==> (l.error is Some ==> after == l.error)
                && (l.error is None ==> after == Some(
                "Unable to request server shutdown: "@ + e@,
            ))
            &&& event matches LinkEvent::CommandFailed(e) ==> after == Some(
                "Unable to send a server command: "@ + e@,
            )
            &&& event matches LinkEvent::UpdatesEnded(e) ==> {
                &&& l.final_update ==> after == l.error
                &&& !l.final_update && e is None ==> after == Some(
                    "The server control channel closed unexpectedly."@,
                )
                &&& !l.final_update && e is Some ==> after == Some(
                    "The server control channel failed: "@ + e->0@,
                )
            }
        }),
{
}

/// A server obeys its window: a stop stops it, an admitted command is queued, and a refused one
/// is a warning of the log.
pub proof fn law_servers_obey_their_window(m: GuiModel, control: Control, timestamp: Seq<char>)
    ensures
        control is Stop ==> obeyed(m, control, timestamp) == stopping(m),
        control matches Control::Command(c) ==> match command_error(m, c@) {
            None => obeyed(m, control, timestamp).commands == m.commands.push(
                super::text::trim(c@),
            ) && obeyed(m, control, timestamp).logs == m.logs,
            Some(e) => obeyed(m, control, timestamp).commands == m.commands && obeyed(
                m,
                control,
                timestamp,
            ).logs == logged(m.logs, timestamp, Level::Warn, e),
        },
        control is Command ==> obeyed(m, control, timestamp).snapshot == m.snapshot,
{
}

/// A process that failed always leaves an error: what the server said last, or else the status
/// of its process. One that succeeded has the error of its supervision, if there is one.
pub proof fn law_failed_processes_leave_an_error(
    error: Option<Seq<char>>,
    last_error: Option<Seq<char>>,
    status: Seq<char>,
)
    ensures
        concluded(error, last_error, true, status) == error,
        concluded(error, last_error, false, status) is Some,
        last_error is Some ==> concluded(error, last_error, false, status) == last_error,
        last_error is None ==> concluded(error, last_error, false, status) == Some(
            "The server process exited with "@ + status + "."@,
        ),
        first_error(error, status) is Some,
        error is Some ==> first_error(error, status) == error,
        error is None ==> first_error(error, status) == Some(status),
{
}

} // verus!

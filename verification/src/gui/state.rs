//! The state that the window and the server share: a snapshot, a bounded log and a
//! bounded command queue. Callers hold it behind a lock; each method is one step.

use super::order::{players_sorted, sort_players};
use super::text::{
    fit, fit_count, is_control, is_control_char, is_space, sanitize_log_text, sanitize_single_line,
    sanitized, single_line, trim, trim_chars, trim_end, trim_end_index, MAX_LOG_BYTES,
};
use super::types::{
    has_stopped, is_terminal, keep_last, lemma_keep_last_concat, lemma_keep_last_push, log_views,
    option_text, player_views, push_bounded, starting_snapshot, GuiPlayer, Level, LogLine, LogView,
    PlayerView, ServerSnapshot, ServerStatus, SnapshotView, MEMORY_HISTORY_CAPACITY,
};
use crate::text::{chars_of, digit, digit_char, string_of, utf8_len};
use std::collections::VecDeque;
use vstd::prelude::*;
use vstd::slice::slice_subrange;

verus! {

pub const MAX_COMMANDS: usize = 32;

pub const MAX_COMMAND_BYTES: usize = 4096;

pub const MAX_LOG_LINES: usize = 2000;

pub const MAX_UPDATE_LOGS: usize = 64;

/// The shared state of a window and its server.
pub struct GuiHandle {
    snapshot: ServerSnapshot,
    logs: VecDeque<LogLine>,
    commands: VecDeque<String>,
    receiver_taken: bool,
    receiver_open: bool,
    desired_running: Option<bool>,
    supervised: bool,
    close_requested: bool,
}

/// The shared state as mathematical values.
pub struct GuiModel {
    pub snapshot: SnapshotView,
    pub logs: Seq<LogView>,
    pub commands: Seq<Seq<char>>,
    /// Whether a worker has taken charge of the command queue.
    pub receiver_taken: bool,
    /// Whether the command queue still admits commands.
    pub receiver_open: bool,
    /// Whether a supervisor should keep the server running, where there is one.
    pub desired_running: Option<bool>,
    /// Whether the supervisor still watches.
    pub supervised: bool,
    pub close_requested: bool,
}

/// The texts that a queue stands for.
pub open spec fn texts(queue: Seq<String>) -> Seq<Seq<char>> {
    queue.map_values(|s: String| s@)
}

impl View for GuiHandle {
    type V = GuiModel;

    closed spec fn view(&self) -> GuiModel {
        GuiModel {
            snapshot: self.snapshot@,
            logs: log_views(self.logs@),
            commands: texts(self.commands@),
            receiver_taken: self.receiver_taken,
            receiver_open: self.receiver_open,
            desired_running: self.desired_running,
            supervised: self.supervised,
            close_requested: self.close_requested,
        }
    }
}

impl GuiModel {
    /// The bounds that every step keeps.
    pub open spec fn wf(self) -> bool {
        &&& self.logs.len() <= MAX_LOG_LINES
        &&& self.commands.len() <= MAX_COMMANDS
        &&& self.snapshot.memory_history.len() <= MEMORY_HISTORY_CAPACITY
    }
}

/// The state before a server has started.
pub open spec fn initial_model(desired_running: Option<bool>) -> GuiModel {
    GuiModel {
        snapshot: starting_snapshot(),
        logs: Seq::empty(),
        commands: Seq::empty(),
        receiver_taken: false,
        receiver_open: true,
        desired_running,
        supervised: desired_running is Some,
        close_requested: false,
    }
}

/// What a reader of the snapshot sees: an unmanaged server that is not gone has been up
/// for the time since its start.
pub open spec fn seen_snapshot(m: GuiModel, elapsed_nanos: u128) -> SnapshotView {
    if m.desired_running is None && !is_terminal(m.snapshot.status) {
        SnapshotView { uptime_nanos: elapsed_nanos, ..m.snapshot }
    } else {
        m.snapshot
    }
}

/// Whether a text holds a control character other than a tab.
pub open spec fn has_control(s: Seq<char>) -> bool {
    exists|i: int| 0 <= i < s.len() && is_control(#[trigger] s[i]) && s[i] != '\t'
}

/// Why a command is refused, if it is.
pub open spec fn command_error(m: GuiModel, command: Seq<char>) -> Option<Seq<char>> {
    if m.snapshot.status != ServerStatus::Running {
        Some("The server is not accepting commands."@)
    } else if !m.snapshot.commands_enabled {
        Some("The server console is disabled in configuration."@)
    } else if utf8_len(command) > MAX_COMMAND_BYTES {
        Some("Commands are limited to 4096 bytes."@)
    } else if has_control(command) {
        Some("Enter one command at a time, without control characters."@)
    } else if trim(command).len() == 0 {
        Some("Enter a command first."@)
    } else if !m.receiver_open {
        Some("The server is no longer accepting commands."@)
    } else if m.commands.len() >= MAX_COMMANDS {
        Some("The command queue is full; wait for pending commands."@)
    } else {
        None
    }
}

/// The state with a command at the end of the queue.
pub open spec fn with_command(m: GuiModel, command: Seq<char>) -> GuiModel {
    GuiModel { commands: m.commands.push(trim(command)), ..m }
}

/// Whether a stop would have an effect.
pub open spec fn stoppable(m: GuiModel) -> bool {
    m.snapshot.status == ServerStatus::Starting || m.snapshot.status == ServerStatus::Running
}

/// Lowers the wish for a running server, where a supervisor listens.
pub open spec fn not_desired(desired: Option<bool>) -> Option<bool> {
    match desired {
        Some(_) => Some(false),
        None => None,
    }
}

/// The state after a stop: it changes a starting or running server only.
pub open spec fn stopping(m: GuiModel) -> GuiModel {
    if stoppable(m) {
        GuiModel {
            snapshot: SnapshotView {
                status: ServerStatus::Stopping,
                commands_enabled: false,
                ..m.snapshot
            },
            desired_running: not_desired(m.desired_running),
            ..m
        }
    } else {
        m
    }
}

/// Why a start is refused, if it is.
pub open spec fn start_error(m: GuiModel) -> Option<Seq<char>> {
    if m.desired_running is None {
        Some("This server instance cannot be restarted in place."@)
    } else if m.close_requested {
        Some("The server window is closing."@)
    } else if !is_terminal(m.snapshot.status) {
        Some("Wait for the server to finish stopping before starting it."@)
    } else if !m.supervised {
        Some("The server supervisor is no longer available. Reopen the window to start again."@)
    } else {
        None
    }
}

/// The state after the backend is gone.
pub open spec fn finished(m: GuiModel, error: Option<Seq<char>>, elapsed_nanos: u128) -> GuiModel {
    GuiModel {
        snapshot: SnapshotView {
            status: if error is Some {
                ServerStatus::Failed
            } else {
                ServerStatus::Stopped
            },
            last_error: match error {
                Some(e) => Some(single_line(e)),
                None => None,
            },
            commands_enabled: false,
            players: Seq::empty(),
            tps_bits: 0,
            uptime_nanos: if m.desired_running is None {
                elapsed_nanos
            } else {
                m.snapshot.uptime_nanos
            },
            ..m.snapshot
        },
        desired_running: not_desired(m.desired_running),
        ..m
    }
}

/// The end of the first line of a text.
pub open spec fn line_end(s: Seq<char>) -> nat
    decreases s.len(),
{
    if s.len() == 0 || s[0] == '\n' {
        0
    } else {
        1 + line_end(s.drop_first())
    }
}

pub proof fn lemma_line_end(s: Seq<char>)
    ensures
        line_end(s) <= s.len(),
        line_end(s) < s.len() ==> s[line_end(s) as int] == '\n',
        forall|i: int| 0 <= i < line_end(s) ==> #[trigger] s[i] != '\n',
    decreases s.len(),
{
    if s.len() > 0 && s[0] != '\n' {
        lemma_line_end(s.drop_first());
        assert forall|i: int| 0 <= i < line_end(s) implies #[trigger] s[i] != '\n' by {
            if i > 0 {
                assert(s.drop_first()[i - 1] != '\n');
            }
        }
    }
}

/// The rows that a cleaned text fills: one for each line that is not blank, without
/// the white space at its end, bounded.
pub open spec fn log_rows(timestamp: Seq<char>, level: Level, text: Seq<char>) -> Seq<LogView>
    decreases text.len(),
{
    if text.len() == 0 {
        Seq::empty()
    } else {
        let end = line_end(text) as int;
        let line = text.take(end);
        let row = if trim(line).len() == 0 {
            Seq::empty()
        } else {
            seq![LogView { timestamp, level, text: fit(trim_end(line), MAX_LOG_BYTES as nat) }]
        };
        proof {
            lemma_line_end(text);
        }
        row + (if end < text.len() {
            log_rows(timestamp, level, text.skip(end + 1))
        } else {
            Seq::empty()
        })
    }
}

/// The log after an event: the event's rows are at its end, and the oldest rows go
/// where it is full.
pub open spec fn logged(
    logs: Seq<LogView>,
    timestamp: Seq<char>,
    level: Level,
    text: Seq<char>,
) -> Seq<LogView> {
    keep_last(logs + log_rows(timestamp, level, sanitized(text)), MAX_LOG_LINES as nat)
}

/// The rows of another log, cleaned again.
pub open spec fn mirrored_rows(update: Seq<LogView>) -> Seq<LogView>
    decreases update.len(),
{
    if update.len() == 0 {
        Seq::empty()
    } else {
        let l = update.last();
        mirrored_rows(update.drop_last()) + log_rows(
            single_line(l.timestamp),
            l.level,
            sanitized(l.text),
        )
    }
}

/// What a supervisor shows of a backend's snapshot, given what it showed before. A
/// stop that has begun cannot be undone, a backend that is gone still has to be
/// reaped, and commands need a running server.
pub open spec fn mirrored_snapshot(current: SnapshotView, update: SnapshotView) -> SnapshotView {
    if is_terminal(current.status) {
        current
    } else {
        let status = if current.status == ServerStatus::Stopping || is_terminal(update.status) {
            ServerStatus::Stopping
        } else {
            update.status
        };
        SnapshotView {
            status,
            commands_enabled: update.commands_enabled && status == ServerStatus::Running,
            memory_history: keep_last(update.memory_history, MEMORY_HISTORY_CAPACITY as nat),
            ..update
        }
    }
}

/// The first log rows of an update.
pub open spec fn update_head(logs: Seq<LogView>) -> Seq<LogView> {
    if logs.len() <= MAX_UPDATE_LOGS {
        logs
    } else {
        logs.take(MAX_UPDATE_LOGS as int)
    }
}

/// The state after a backend's update.
pub open spec fn mirrored(m: GuiModel, update: SnapshotView, logs: Seq<LogView>) -> GuiModel {
    GuiModel {
        snapshot: mirrored_snapshot(m.snapshot, update),
        logs: keep_last(m.logs + mirrored_rows(update_head(logs)), MAX_LOG_LINES as nat),
        ..m
    }
}

/// A two-digit number.
pub open spec fn two_digits(n: int) -> Seq<char> {
    seq![digit_char((n / 10) as nat), digit_char((n % 10) as nat)]
}

/// A time of day.
pub open spec fn clock(hour: int, minute: int, second: int) -> Seq<char> {
    two_digits(hour) + seq![':'] + two_digits(minute) + seq![':'] + two_digits(second)
}

/// What a server is configured to be, as far as the window shows it.
pub struct ServerInfo {
    pub world_name: String,
    pub java_enabled: bool,
    pub java_address: String,
    pub java_max_players: u32,
    pub bedrock_enabled: bool,
    pub nethernet_enabled: bool,
    pub nethernet_address: String,
    pub bedrock_max_players: u32,
    pub target_tps_bits: u64,
    pub use_console: bool,
}

/// The snapshot of a server that has come up. It runs unless a stop was asked for
/// meanwhile.
pub open spec fn attached_snapshot(
    s: SnapshotView,
    info: ServerInfo,
    stop_requested: bool,
) -> SnapshotView {
    let runs = s.status == ServerStatus::Starting && !stop_requested;
    SnapshotView {
        world_name: info.world_name@,
        java_address: if info.java_enabled {
            Some(info.java_address@)
        } else {
            None
        },
        bedrock_address: if info.bedrock_enabled && info.nethernet_enabled {
            Some(info.nethernet_address@)
        } else {
            None
        },
        max_players: if info.java_enabled {
            info.java_max_players as usize
        } else if info.bedrock_enabled {
            info.bedrock_max_players as usize
        } else {
            0
        },
        target_tps_bits: info.target_tps_bits,
        status: if runs {
            ServerStatus::Running
        } else {
            ServerStatus::Stopping
        },
        commands_enabled: if runs {
            info.use_console
        } else {
            s.commands_enabled
        },
        ..s
    }
}

/// The state after a server has come up. Only the first server takes the commands; one
/// that comes up after the end closes the queue.
pub open spec fn attached(m: GuiModel, info: ServerInfo, stop_requested: bool) -> GuiModel {
    if m.receiver_taken {
        m
    } else if is_terminal(m.snapshot.status) {
        GuiModel {
            receiver_taken: true,
            receiver_open: false,
            commands: Seq::empty(),
            ..m
        }
    } else {
        GuiModel {
            receiver_taken: true,
            snapshot: attached_snapshot(m.snapshot, info, stop_requested),
            ..m
        }
    }
}

/// A player as the server knows them.
pub struct OnlinePlayer {
    pub id: u128,
    pub name: String,
    pub bedrock: bool,
}

/// What the window lists for a player.
pub open spec fn listed(player: OnlinePlayer, operators: Seq<u128>) -> PlayerView {
    PlayerView {
        id: player.id,
        name: single_line(player.name@),
        edition: if player.bedrock {
            "Bedrock"@
        } else {
            "Java"@
        },
        is_op: operators.contains(player.id),
    }
}

/// The rates of the server's ticks, as the bits of floating-point numbers.
pub struct TickRates {
    pub target_tps_bits: u64,
    pub mspt_bits: u64,
    pub tps_bits: u64,
    pub frozen: bool,
}

/// The snapshot after a sample, for an ordered list of players. Where the memory could
/// not be sampled the last sample stands.
pub open spec fn sampled_snapshot(
    s: SnapshotView,
    players: Seq<PlayerView>,
    rates: TickRates,
    memory_bytes: Option<u64>,
    elapsed_nanos: u128,
) -> SnapshotView {
    SnapshotView {
        players,
        target_tps_bits: rates.target_tps_bits,
        mspt_bits: rates.mspt_bits,
        tps_bits: rates.tps_bits,
        tick_frozen: rates.frozen,
        memory_bytes: match memory_bytes {
            Some(b) => b,
            None => s.memory_bytes,
        },
        memory_history: match memory_bytes {
            Some(b) => keep_last(s.memory_history.push(b), MEMORY_HISTORY_CAPACITY as nat),
            None => s.memory_history,
        },
        uptime_nanos: elapsed_nanos,
        sample_id: if s.sample_id < u64::MAX {
            (s.sample_id + 1) as u64
        } else {
            s.sample_id
        },
        ..s
    }
}

/// Whether a text holds a control character other than a tab.
pub fn holds_control(chars: &[char]) -> (r: bool)
    ensures
        r == has_control(chars@),
{
    let mut i: usize = 0;
    while i < chars.len()
        invariant
            i <= chars@.len(),
            forall|k: int| 0 <= k < i ==> !(is_control(#[trigger] chars@[k]) && chars@[k] != '\t'),
        decreases chars@.len() - i,
    {
        if is_control_char(chars[i]) && chars[i] != '\t' {
            assert(is_control(chars@[i as int]) && chars@[i as int] != '\t');
            return true;
        }
        i = i + 1;
    }
    false
}

/// The players that the window lists, in order.
pub fn list_players(online: &Vec<OnlinePlayer>, operators: &Vec<u128>) -> (r: Vec<GuiPlayer>)
    ensures
        players_sorted(player_views(r@)),
        player_views(r@).to_multiset() == online@.map_values(
            |p: OnlinePlayer| listed(p, operators@),
        ).to_multiset(),
{
    let mut players: Vec<GuiPlayer> = Vec::new();
    let ghost all = online@.map_values(|p: OnlinePlayer| listed(p, operators@));
    let mut i: usize = 0;
    while i < online.len()
        invariant
            i <= online@.len(),
            all == online@.map_values(|p: OnlinePlayer| listed(p, operators@)),
            player_views(players@) == all.take(i as int),
        decreases online@.len() - i,
    {
        let ghost before = player_views(players@);
        let id: u128 = online[i].id;
        let player = GuiPlayer {
            id,
            name: sanitize_single_line(online[i].name.as_str()),
            edition: if online[i].bedrock {
                "Bedrock".to_owned()
            } else {
                "Java".to_owned()
            },
            is_op: contains_id(operators, id),
        };
        players.push(player);
        assert(player_views(players@) =~= before.push(player@));
        assert(all.take(i + 1) =~= before.push(all[i as int]));
        i = i + 1;
    }
    assert(all.take(i as int) =~= all);
    sort_players(players)
}

/// An operator, as the configuration lists them.
#[derive(Debug)]
pub struct Operator {
    pub uuid: u128,
    pub name: String,
    pub level: u8,
    pub bypasses_player_limit: bool,
}

/// The ids of operators: neither their names nor their levels matter.
pub fn operator_ids(ops: &Vec<Operator>) -> (r: Vec<u128>)
    ensures
        r@ == ops@.map_values(|op: Operator| op.uuid),
{
    let mut ids: Vec<u128> = Vec::new();
    let mut i: usize = 0;
    while i < ops.len()
        invariant
            i <= ops@.len(),
            ids@.len() == i,
            forall|k: int| 0 <= k < i ==> #[trigger] ids@[k] == ops@[k].uuid,
        decreases ops@.len() - i,
    {
        ids.push(ops[i].uuid);
        i = i + 1;
    }
    assert(ids@ =~= ops@.map_values(|op: Operator| op.uuid));
    ids
}

/// Whether an id is in a list.
pub fn contains_id(ids: &Vec<u128>, id: u128) -> (r: bool)
    ensures
        r == ids@.contains(id),
{
    let mut i: usize = 0;
    while i < ids.len()
        invariant
            i <= ids@.len(),
            forall|k: int| 0 <= k < i ==> #[trigger] ids@[k] != id,
        decreases ids@.len() - i,
    {
        if ids[i] == id {
            assert(ids@[i as int] == id);
            return true;
        }
        i = i + 1;
    }
    false
}

/// Appends the rows of a cleaned text to a log.
fn push_rows(logs: &mut VecDeque<LogLine>, timestamp: &str, level: Level, text: &[char])
    requires
        old(logs)@.len() <= MAX_LOG_LINES,
    ensures
        final(logs)@.len() <= MAX_LOG_LINES,
        log_views(final(logs)@) == keep_last(
            log_views(old(logs)@) + log_rows(timestamp@, level, text@),
            MAX_LOG_LINES as nat,
        ),
{
    let ghost start = log_views(logs@);
    let ghost whole = log_rows(timestamp@, level, text@);
    let ghost mut done = Seq::<LogView>::empty();
    let mut i: usize = 0;
    proof {
        assert(text@.skip(0) =~= text@);
        assert(keep_last(start + done, MAX_LOG_LINES as nat) =~= start);
        assert(done + log_rows(timestamp@, level, text@.skip(0)) =~= whole);
    }
    while i < text.len()
        invariant
            i <= text@.len(),
            logs@.len() <= MAX_LOG_LINES,
            log_views(logs@) == keep_last(start + done, MAX_LOG_LINES as nat),
            done + log_rows(timestamp@, level, text@.skip(i as int)) == whole,
        decreases text@.len() - i,
    {
        let ghost rest = text@.skip(i as int);
        let ghost end = line_end(rest) as int;
        let mut j: usize = i;
        while j < text.len() && text[j] != '\n'
            invariant
                i <= j <= text@.len(),
                rest == text@.skip(i as int),
                line_end(rest) == (j - i) + line_end(text@.skip(j as int)),
            decreases text@.len() - j,
        {
            assert(text@.skip(j as int).drop_first() =~= text@.skip(j + 1));
            j = j + 1;
        }
        assert(j == i + end);
        let line = slice_subrange(text, i, j);
        assert(line@ =~= rest.take(end));
        if trim_chars(line).len() > 0 {
            let stop: usize = trim_end_index(line);
            let body = slice_subrange(line, 0, stop);
            assert(body@ =~= trim_end(line@));
            let n: usize = fit_count(body, MAX_LOG_BYTES);
            let shown = slice_subrange(body, 0, n);
            assert(shown@ =~= fit(trim_end(line@), MAX_LOG_BYTES as nat));
            let row = LogLine { timestamp: timestamp.to_owned(), level, text: string_of(shown) };
            let ghost before = logs@;
            push_bounded(logs, row, MAX_LOG_LINES);
            proof {
                assert(log_views(before.push(row)) =~= log_views(before).push(row@));
                assert(log_views(logs@) =~= keep_last(
                    log_views(before).push(row@),
                    MAX_LOG_LINES as nat,
                ));
                lemma_keep_last_push(start + done, row@, MAX_LOG_LINES as nat);
                assert((start + done).push(row@) =~= start + done.push(row@));
                let tail = if end < rest.len() {
                    log_rows(timestamp@, level, rest.skip(end + 1))
                } else {
                    Seq::empty()
                };
                assert(log_rows(timestamp@, level, rest) =~= seq![row@] + tail);
                assert(done + log_rows(timestamp@, level, rest) =~= done.push(row@) + tail);
                done = done.push(row@);
            }
        } else {
            proof {
                let tail = if end < rest.len() {
                    log_rows(timestamp@, level, rest.skip(end + 1))
                } else {
                    Seq::empty()
                };
                assert(log_rows(timestamp@, level, rest) =~= tail);
            }
        }
        if j < text.len() {
            assert(rest.skip(end + 1) =~= text@.skip(j + 1));
            i = j + 1;
        } else {
            assert(text@.skip(j as int) =~= Seq::<char>::empty());
            i = j;
        }
    }
    proof {
        assert(text@.skip(i as int) =~= Seq::<char>::empty());
        assert(whole =~= done);
    }
}

impl GuiHandle {
    /// A window on the server of this process.
    pub fn new() -> (r: Self)
        ensures
            r@ == initial_model(None),
            r@.wf(),
    {
        Self::with_manager(None)
    }

    /// A window with a supervisor, which is asked for a first server at once.
    pub fn new_managed() -> (r: Self)
        ensures
            r@ == initial_model(Some(true)),
            r@.wf(),
    {
        Self::with_manager(Some(true))
    }

    fn with_manager(desired_running: Option<bool>) -> (r: Self)
        ensures
            r@ == initial_model(desired_running),
            r@.wf(),
    {
        let r = GuiHandle {
            snapshot: ServerSnapshot::starting(),
            logs: VecDeque::new(),
            commands: VecDeque::new(),
            receiver_taken: false,
            receiver_open: true,
            desired_running,
            supervised: desired_running.is_some(),
            close_requested: false,
        };
        assert(r@.logs =~= Seq::<LogView>::empty());
        assert(r@.commands =~= Seq::<Seq<char>>::empty());
        r
    }

    /// A copy of the snapshot.
    pub fn snapshot(&self, elapsed_nanos: u128) -> (r: ServerSnapshot)
        ensures
            r@ == seen_snapshot(self@, elapsed_nanos),
    {
        let mut snapshot = self.snapshot.clone();
        if self.desired_running.is_none() && !has_stopped(snapshot.status) {
            snapshot.uptime_nanos = elapsed_nanos;
        }
        snapshot
    }

    /// Takes all log rows, oldest first.
    pub fn drain_logs(&mut self) -> (r: Vec<LogLine>)
        ensures
            log_views(r@) == old(self)@.logs,
            final(self)@ == (GuiModel { logs: Seq::empty(), ..old(self)@ }),
    {
        let n: usize = self.logs.len();
        let r = self.take_logs(n);
        assert(self@.logs =~= Seq::<LogView>::empty());
        assert(old(self)@.logs.take(n as int) =~= old(self)@.logs);
        r
    }

    /// Takes the oldest `count` log rows.
    fn take_logs(&mut self, count: usize) -> (r: Vec<LogLine>)
        requires
            count <= old(self)@.logs.len(),
        ensures
            log_views(r@) == old(self)@.logs.take(count as int),
            final(self)@ == (GuiModel { logs: old(self)@.logs.skip(count as int), ..old(self)@ }),
    {
        let ghost all = self.logs@;
        let mut taken: Vec<LogLine> = Vec::new();
        assert(self.logs@ =~= all.skip(0));
        assert(taken@ =~= all.take(0));
        let mut i: usize = 0;
        while i < count
            invariant
                i <= count <= all.len(),
                taken@ == all.take(i as int),
                self.logs@ == all.skip(i as int),
                self@ == (GuiModel { logs: log_views(all.skip(i as int)), ..old(self)@ }),
            decreases count - i,
        {
            if let Some(line) = self.logs.pop_front() {
                assert(line == all[i as int]);
                taken.push(line);
                assert(taken@ =~= all.take(i + 1));
                assert(self.logs@ =~= all.skip(i + 1));
            }
            i = i + 1;
        }
        assert(log_views(taken@) =~= old(self)@.logs.take(count as int));
        assert(log_views(all.skip(count as int)) =~= old(self)@.logs.skip(count as int));
        taken
    }

    /// A snapshot and the oldest rows of the log; later rows wait for the next update.
    pub fn backend_update(&mut self, elapsed_nanos: u128) -> (r: (ServerSnapshot, Vec<LogLine>))
        ensures
            r.0@ == seen_snapshot(old(self)@, elapsed_nanos),
            log_views(r.1@) == update_head(old(self)@.logs),
            final(self)@ == (GuiModel {
                logs: old(self)@.logs.skip(update_head(old(self)@.logs).len() as int),
                ..old(self)@
            }),
    {
        let snapshot = self.snapshot(elapsed_nanos);
        let count: usize = if self.logs.len() < MAX_UPDATE_LOGS {
            self.logs.len()
        } else {
            MAX_UPDATE_LOGS
        };
        assert(self@.logs.take(count as int) =~= update_head(self@.logs));
        let logs = self.take_logs(count);
        (snapshot, logs)
    }

    /// Mirrors a backend. The supervisor stops mirroring before it reports the end.
    pub fn apply_backend_update(&mut self, update: ServerSnapshot, logs: Vec<LogLine>)
        requires
            old(self)@.wf(),
        ensures
            final(self)@ == mirrored(old(self)@, update@, log_views(logs@)),
            final(self)@.wf(),
    {
        let ghost m = self@;
        if !has_stopped(self.snapshot.status) {
            let mut update = update;
            let ghost given = update@;
            if self.snapshot.status == ServerStatus::Stopping || has_stopped(update.status) {
                update.status = ServerStatus::Stopping;
            }
            if update.status != ServerStatus::Running {
                update.commands_enabled = false;
            }
            let ghost history = update.memory_history@;
            let excess: usize = if update.memory_history.len() > MEMORY_HISTORY_CAPACITY {
                update.memory_history.len() - MEMORY_HISTORY_CAPACITY
            } else {
                0
            };
            update.memory_history = update.memory_history.split_off(excess);
            assert(update.memory_history@ =~= keep_last(history, MEMORY_HISTORY_CAPACITY as nat));
            self.snapshot = update;
            assert(self.snapshot@ == mirrored_snapshot(m.snapshot, given));
        }
        let ghost all = log_views(logs@);
        let ghost head = update_head(all);
        let count: usize = if logs.len() < MAX_UPDATE_LOGS {
            logs.len()
        } else {
            MAX_UPDATE_LOGS
        };
        let mut i: usize = 0;
        assert(head.take(0) =~= Seq::<LogView>::empty());
        assert(m.logs + mirrored_rows(head.take(0)) =~= m.logs);
        while i < count
            invariant
                i <= count == head.len(),
                count <= logs@.len(),
                head == update_head(log_views(logs@)),
                m.wf(),
                self@ == (GuiModel {
                    snapshot: mirrored_snapshot(m.snapshot, update@),
                    logs: keep_last(
                        m.logs + mirrored_rows(head.take(i as int)),
                        MAX_LOG_LINES as nat,
                    ),
                    ..m
                }),
                self@.wf(),
            decreases count - i,
        {
            let timestamp = sanitize_single_line(logs[i].timestamp.as_str());
            let ghost before = m.logs + mirrored_rows(head.take(i as int));
            let ghost rows = log_rows(timestamp@, logs@[i as int].level, sanitized(logs@[i as int].text@));
            self.append_log(timestamp.as_str(), logs[i].level, logs[i].text.as_str());
            proof {
                assert(head[i as int] == logs@[i as int]@);
                assert(head.take(i + 1).drop_last() =~= head.take(i as int));
                assert(head.take(i + 1).last() == head[i as int]);
                lemma_keep_last_concat(before, rows, MAX_LOG_LINES as nat);
                assert(before + rows =~= m.logs + mirrored_rows(head.take(i + 1)));
            }
            i = i + 1;
        }
        assert(head.take(i as int) =~= head);
    }

    /// Puts a command at the end of the queue, or says why not.
    pub fn submit_command(&mut self, command: &str) -> (r: Result<(), String>)
        requires
            old(self)@.wf(),
        ensures
            final(self)@.wf(),
            match command_error(old(self)@, command@) {
                Some(e) => r is Err && r->Err_0@ == e && final(self)@ == old(self)@,
                None => r is Ok && final(self)@ == with_command(old(self)@, command@),
            },
    {
        if self.snapshot.status != ServerStatus::Running {
            return Err("The server is not accepting commands.".to_owned());
        }
        if !self.snapshot.commands_enabled {
            return Err("The server console is disabled in configuration.".to_owned());
        }
        proof {
            crate::text::lemma_utf8_len_is_encoded_len(command@);
        }
        if command.as_bytes().len() > MAX_COMMAND_BYTES {
            return Err("Commands are limited to 4096 bytes.".to_owned());
        }
        let chars = chars_of(command);
        if holds_control(chars.as_slice()) {
            return Err("Enter one command at a time, without control characters.".to_owned());
        }
        let trimmed = trim_chars(chars.as_slice());
        if trimmed.len() == 0 {
            return Err("Enter a command first.".to_owned());
        }
        if !self.receiver_open {
            return Err("The server is no longer accepting commands.".to_owned());
        }
        if self.commands.len() >= MAX_COMMANDS {
            return Err("The command queue is full; wait for pending commands.".to_owned());
        }
        let ghost before = self.commands@;
        let text = string_of(trimmed);
        self.commands.push_back(text);
        assert(texts(self.commands@) =~= texts(before).push(text@));
        Ok(())
    }

    /// The oldest command of the queue, where there is one.
    pub fn try_recv(&mut self) -> (r: Option<String>)
        requires
            old(self)@.wf(),
        ensures
            final(self)@.wf(),
            option_text(r) == (if old(self)@.commands.len() > 0 {
                Some(old(self)@.commands[0])
            } else {
                None
            }),
            final(self)@ == (GuiModel {
                commands: if old(self)@.commands.len() > 0 {
                    old(self)@.commands.skip(1)
                } else {
                    old(self)@.commands
                },
                ..old(self)@
            }),
    {
        let ghost before = self.commands@;
        let r = self.commands.pop_front();
        proof {
            if before.len() > 0 {
                assert(texts(self.commands@) =~= texts(before).skip(1));
            }
        }
        r
    }

    /// Stops admitting commands; those in the queue stay.
    pub fn close_commands(&mut self)
        ensures
            final(self)@ == (GuiModel { receiver_open: false, ..old(self)@ }),
    {
        self.receiver_open = false;
    }

    /// Discards every queued command.
    pub fn discard_commands(&mut self)
        ensures
            final(self)@ == (GuiModel { commands: Seq::empty(), ..old(self)@ }),
    {
        self.commands.clear();
        assert(texts(self.commands@) =~= Seq::<Seq<char>>::empty());
    }

    /// Asks for a graceful stop. It says whether the server of this process has to be
    /// told, which happens once and never where a supervisor listens.
    pub fn request_stop(&mut self) -> (r: bool)
        ensures
            final(self)@ == stopping(old(self)@),
            r == (stoppable(old(self)@) && old(self)@.desired_running is None),
    {
        let began = self.begin_stop();
        began && self.desired_running.is_none()
    }

    /// Remembers that the window closes, and asks for a stop.
    pub fn request_close(&mut self) -> (r: bool)
        ensures
            final(self)@ == stopping(GuiModel { close_requested: true, ..old(self)@ }),
            r == (stoppable(old(self)@) && old(self)@.desired_running is None),
    {
        self.close_requested = true;
        self.request_stop()
    }

    pub fn close_requested(&self) -> (r: bool)
        ensures
            r == self@.close_requested,
    {
        self.close_requested
    }

    /// Whether a supervisor should keep the server running, where there is one.
    pub fn desired_running(&self) -> (r: Option<bool>)
        ensures
            r == self@.desired_running,
    {
        self.desired_running
    }

    /// The supervisor is gone.
    pub fn drop_supervisor(&mut self)
        ensures
            final(self)@ == (GuiModel { supervised: false, ..old(self)@ }),
    {
        self.supervised = false;
    }

    /// Asks the supervisor for a new server, once the previous one is gone.
    pub fn request_start(&mut self) -> (r: Result<(), String>)
        requires
            old(self)@.wf(),
        ensures
            final(self)@.wf(),
            match start_error(old(self)@) {
                Some(e) => r is Err && r->Err_0@ == e && final(self)@ == old(self)@,
                None => r is Ok && final(self)@ == (GuiModel {
                    snapshot: starting_snapshot(),
                    desired_running: Some(true),
                    ..old(self)@
                }),
            },
    {
        if self.desired_running.is_none() {
            return Err("This server instance cannot be restarted in place.".to_owned());
        }
        if self.close_requested {
            return Err("The server window is closing.".to_owned());
        }
        if !has_stopped(self.snapshot.status) {
            return Err("Wait for the server to finish stopping before starting it.".to_owned());
        }
        if !self.supervised {
            return Err(
                "The server supervisor is no longer available. Reopen the window to start again.".to_owned(),
            );
        }
        self.desired_running = Some(true);
        self.snapshot = ServerSnapshot::starting();
        Ok(())
    }

    /// Begins a stop, and says whether there was anything to stop.
    pub fn begin_stop(&mut self) -> (r: bool)
        ensures
            final(self)@ == stopping(old(self)@),
            r == stoppable(old(self)@),
    {
        if !matches!(self.snapshot.status, ServerStatus::Starting | ServerStatus::Running) {
            return false;
        }
        self.snapshot.status = ServerStatus::Stopping;
        self.snapshot.commands_enabled = false;
        if self.desired_running.is_some() {
            self.desired_running = Some(false);
        }
        true
    }

    /// Takes charge of the command queue: the first caller gets it.
    pub fn take_command_receiver(&mut self) -> (r: bool)
        ensures
            r == !old(self)@.receiver_taken,
            final(self)@ == (GuiModel { receiver_taken: true, ..old(self)@ }),
    {
        let first = !self.receiver_taken;
        self.receiver_taken = true;
        first
    }

    /// Shows a server that has come up. It says whether the workers that feed commands
    /// and samples are to be started.
    pub fn attach_server(&mut self, info: &ServerInfo, stop_requested: bool) -> (r: bool)
        requires
            old(self)@.wf(),
        ensures
            final(self)@.wf(),
            final(self)@ == attached(old(self)@, *info, stop_requested),
            r == (!old(self)@.receiver_taken && !is_terminal(old(self)@.snapshot.status)),
    {
        if !self.take_command_receiver() {
            return false;
        }
        if has_stopped(self.snapshot.status) {
            self.close_commands();
            self.discard_commands();
            return false;
        }
        self.snapshot.world_name = info.world_name.clone();
        self.snapshot.java_address = if info.java_enabled {
            Some(info.java_address.clone())
        } else {
            None
        };
        self.snapshot.bedrock_address = if info.bedrock_enabled && info.nethernet_enabled {
            Some(info.nethernet_address.clone())
        } else {
            None
        };
        self.snapshot.max_players = if info.java_enabled {
            info.java_max_players as usize
        } else if info.bedrock_enabled {
            info.bedrock_max_players as usize
        } else {
            0
        };
        self.snapshot.target_tps_bits = info.target_tps_bits;
        if self.snapshot.status == ServerStatus::Starting && !stop_requested {
            self.snapshot.status = ServerStatus::Running;
            self.snapshot.commands_enabled = info.use_console;
        } else {
            self.snapshot.status = ServerStatus::Stopping;
        }
        true
    }

    /// Echoes a command that is about to run, and says whether it may run.
    pub fn echo_command(&mut self, hour: u8, minute: u8, second: u8, command: &str) -> (r: bool)
        requires
            old(self)@.wf(),
            hour < 100,
            minute < 100,
            second < 100,
        ensures
            final(self)@.wf(),
            r == old(self)@.snapshot.commands_enabled,
            final(self)@ == (if r {
                GuiModel {
                    logs: logged(
                        old(self)@.logs,
                        clock(hour as int, minute as int, second as int),
                        Level::Info,
                        "> "@ + command@,
                    ),
                    ..old(self)@
                }
            } else {
                old(self)@
            }),
    {
        if self.snapshot.commands_enabled {
            let mut text = "> ".to_owned();
            text.append(command);
            self.push_log(hour, minute, second, Level::Info, text.as_str());
            true
        } else {
            false
        }
    }

    /// Takes a sample of the running server.
    pub fn update_snapshot(
        &mut self,
        online: &Vec<OnlinePlayer>,
        operators: &Vec<u128>,
        rates: TickRates,
        memory_bytes: Option<u64>,
        elapsed_nanos: u128,
    )
        requires
            old(self)@.wf(),
        ensures
            final(self)@.wf(),
            is_terminal(old(self)@.snapshot.status) ==> final(self)@ == old(self)@,
            !is_terminal(old(self)@.snapshot.status) ==> {
                let players = final(self)@.snapshot.players;
                &&& players_sorted(players)
                &&& players.to_multiset() == online@.map_values(
                    |p: OnlinePlayer| listed(p, operators@),
                ).to_multiset()
                &&& final(self)@ == (GuiModel {
                    snapshot: sampled_snapshot(
                        old(self)@.snapshot,
                        players,
                        rates,
                        memory_bytes,
                        elapsed_nanos,
                    ),
                    ..old(self)@
                })
            },
    {
        let players = list_players(online, operators);
        if has_stopped(self.snapshot.status) {
            return ;
        }
        self.snapshot.players = players;
        self.snapshot.target_tps_bits = rates.target_tps_bits;
        self.snapshot.mspt_bits = rates.mspt_bits;
        self.snapshot.tps_bits = rates.tps_bits;
        self.snapshot.tick_frozen = rates.frozen;
        if let Some(memory_bytes) = memory_bytes {
            self.snapshot.record_memory_sample(memory_bytes);
        }
        self.snapshot.uptime_nanos = elapsed_nanos;
        if self.snapshot.sample_id < u64::MAX {
            self.snapshot.sample_id = self.snapshot.sample_id + 1;
        }
    }

    /// The backend is gone: normally, or with an error that the status shows.
    pub fn finish(&mut self, error: Option<String>, elapsed_nanos: u128)
        requires
            old(self)@.wf(),
        ensures
            final(self)@.wf(),
            final(self)@ == finished(old(self)@, option_text(error), elapsed_nanos),
    {
        if self.desired_running.is_some() {
            self.desired_running = Some(false);
        }
        self.snapshot.status = if error.is_some() {
            ServerStatus::Failed
        } else {
            ServerStatus::Stopped
        };
        self.snapshot.last_error = match error {
            Some(error) => Some(sanitize_single_line(error.as_str())),
            None => None,
        };
        self.snapshot.commands_enabled = false;
        self.snapshot.players.clear();
        assert(player_views(self.snapshot.players@) =~= Seq::<PlayerView>::empty());
        self.snapshot.tps_bits = 0;
        if self.desired_running.is_none() {
            self.snapshot.uptime_nanos = elapsed_nanos;
        }
    }

    /// Logs an event at a time of day.
    pub fn push_log(&mut self, hour: u8, minute: u8, second: u8, level: Level, text: &str)
        requires
            old(self)@.wf(),
            hour < 100,
            minute < 100,
            second < 100,
        ensures
            final(self)@.wf(),
            final(self)@ == (GuiModel {
                logs: logged(
                    old(self)@.logs,
                    clock(hour as int, minute as int, second as int),
                    level,
                    text@,
                ),
                ..old(self)@
            }),
    {
        let timestamp = clock_text(hour, minute, second);
        self.append_log(timestamp.as_str(), level, text);
    }

    /// Logs an event: each of its lines becomes a row.
    pub fn append_log(&mut self, timestamp: &str, level: Level, text: &str)
        requires
            old(self)@.wf(),
        ensures
            final(self)@.wf(),
            final(self)@ == (GuiModel {
                logs: logged(old(self)@.logs, timestamp@, level, text@),
                ..old(self)@
            }),
    {
        let clean = sanitize_log_text(text);
        let chars = chars_of(clean.as_str());
        push_rows(&mut self.logs, timestamp, level, chars.as_slice());
    }
}

/// Shows a reply to a console command, where there is a window to show it in.
pub fn capture_console_reply(
    gui: &mut Option<GuiHandle>,
    hour: u8,
    minute: u8,
    second: u8,
    text: &str,
)
    requires
        *old(gui) is Some ==> (*old(gui))->0@.wf(),
        hour < 100,
        minute < 100,
        second < 100,
    ensures
        *final(gui) is Some <==> *old(gui) is Some,
        *old(gui) is Some ==> (*final(gui))->0@.wf() && (*final(gui))->0@ == (GuiModel {
            logs: logged(
                (*old(gui))->0@.logs,
                clock(hour as int, minute as int, second as int),
                Level::Info,
                text@,
            ),
            ..(*old(gui))->0@
        }),
{
    match gui.take() {
        None => {},
        Some(mut handle) => {
            handle.push_log(hour, minute, second, Level::Info, text);
            *gui = Some(handle);
        },
    }
}

/// A time of day as text.
pub fn clock_text(hour: u8, minute: u8, second: u8) -> (s: String)
    requires
        hour < 100,
        minute < 100,
        second < 100,
    ensures
        s@ == clock(hour as int, minute as int, second as int),
{
    let mut s = String::new();
    s.push(digit(hour / 10));
    s.push(digit(hour % 10));
    s.push(':');
    s.push(digit(minute / 10));
    s.push(digit(minute % 10));
    s.push(':');
    s.push(digit(second / 10));
    s.push(digit(second % 10));
    assert(s@ =~= clock(hour as int, minute as int, second as int));
    s
}

/// A stop is idempotent: once one has begun, another changes nothing.
pub proof fn law_stop_is_idempotent(m: GuiModel)
    ensures
        stopping(stopping(m)) == stopping(m),
        !stoppable(stopping(m)),
{
}

/// Once a stop has begun, no update from the backend brings the server back, and no
/// command is admitted, until the end is reported.
pub proof fn law_updates_cannot_undo_a_stop(m: GuiModel, update: SnapshotView, logs: Seq<LogView>, command: Seq<char>)
    requires
        m.snapshot.status == ServerStatus::Stopping,
    ensures
        mirrored(m, update, logs).snapshot.status == ServerStatus::Stopping,
        !mirrored(m, update, logs).snapshot.commands_enabled,
        command_error(mirrored(m, update, logs), command) is Some,
        start_error(mirrored(m, update, logs)) is Some,
{
}

/// A backend that says it is gone is shown as stopping: only the supervisor, which
/// reaps it, shows the end.
pub proof fn law_terminal_updates_wait_for_reaping(m: GuiModel, update: SnapshotView, logs: Seq<LogView>)
    requires
        !is_terminal(m.snapshot.status),
    ensures
        !is_terminal(mirrored(m, update, logs).snapshot.status),
{
}

/// After the end, updates of the old backend leave the snapshot alone.
pub proof fn law_updates_after_the_end_are_ignored(m: GuiModel, update: SnapshotView, logs: Seq<LogView>)
    requires
        is_terminal(m.snapshot.status),
    ensures
        mirrored(m, update, logs).snapshot == m.snapshot,
{
}

/// Once the window closes, nothing starts a server again.
pub proof fn law_closing_prevents_a_restart(m: GuiModel)
    requires
        m.close_requested,
    ensures
        start_error(m) is Some,
        start_error(stopping(m)) is Some,
{
}

/// A command that was admitted is the last of the queue, is not blank, and holds no
/// control character but tabs.
pub proof fn law_admitted_commands_are_one_line(m: GuiModel, command: Seq<char>)
    requires
        command_error(m, command) is None,
    ensures
        with_command(m, command).commands.last() == trim(command),
        trim(command).len() > 0,
        !has_control(trim(command)),
        m.wf() ==> with_command(m, command).wf(),
{
    let t = trim(command);
    super::text::lemma_trim_start_is_suffix(command);
    super::text::lemma_trim_end_is_prefix(super::text::trim_start(command));
    if has_control(t) {
        let i = choose|i: int| 0 <= i < t.len() && is_control(#[trigger] t[i]) && t[i] != '\t';
        let a = super::text::trim_start(command);
        assert(t[i] == a[i]);
        let k = command.len() - a.len() + i;
        assert(command[k] == t[i]);
        assert(is_control(command[k]) && command[k] != '\t');
    }
}

proof fn lemma_no_line_end(s: Seq<char>)
    requires
        forall|i: int| 0 <= i < s.len() ==> #[trigger] s[i] != '\n',
    ensures
        line_end(s) == s.len(),
{
    lemma_line_end(s);
}

/// An event of one line, without control characters and white space at its end, fills one
/// row as it is.
pub proof fn law_a_plain_line_fills_one_row(timestamp: Seq<char>, level: Level, text: Seq<char>)
    requires
        utf8_len(text) <= MAX_LOG_BYTES,
        forall|i: int| 0 <= i < text.len() ==> !is_control(#[trigger] text[i]),
        text.len() > 0,
        !is_space(text.last()),
    ensures
        log_rows(timestamp, level, sanitized(text)) == seq![LogView { timestamp, level, text }],
{
    super::text::law_a_clean_text_is_shown_unchanged(text);
    lemma_no_line_end(text);
    assert(text.take(text.len() as int) =~= text);
    super::text::lemma_trim_start_keeps_end(text);
    assert(trim(text).len() > 0);
    assert(log_rows(timestamp, level, text) =~= seq![LogView { timestamp, level, text }]);
}

/// Lines of an event fill rows one by one: what follows a line feed is a text of its own.
pub proof fn law_each_line_fills_its_own_rows(
    timestamp: Seq<char>,
    level: Level,
    line: Seq<char>,
    rest: Seq<char>,
)
    requires
        forall|i: int| 0 <= i < line.len() ==> #[trigger] line[i] != '\n',
    ensures
        log_rows(timestamp, level, line + seq!['\n'] + rest) == log_rows(timestamp, level, line)
            + log_rows(timestamp, level, rest),
{
    let s = line + seq!['\n'] + rest;
    lemma_line_end(s);
    lemma_no_line_end(line);
    if line_end(s) < line.len() {
        assert(s[line_end(s) as int] == line[line_end(s) as int]);
    }
    assert(s[line.len() as int] == '\n');
    assert(line_end(s) == line.len());
    assert(s.take(line.len() as int) =~= line);
    assert(line.take(line.len() as int) =~= line);
    assert(s.skip(line.len() as int + 1) =~= rest);
    assert(log_rows(timestamp, level, s) =~= log_rows(timestamp, level, line) + log_rows(
        timestamp,
        level,
        rest,
    ));
}

/// A log never holds more rows than its bound, and keeps the latest.
pub proof fn law_log_keeps_the_latest(logs: Seq<LogView>, timestamp: Seq<char>, level: Level, text: Seq<char>)
    ensures
        logged(logs, timestamp, level, text).len() <= MAX_LOG_LINES,
        ({
            let rows = log_rows(timestamp, level, sanitized(text));
            rows.len() <= MAX_LOG_LINES ==> logged(logs, timestamp, level, text).skip(
                logged(logs, timestamp, level, text).len() - rows.len(),
            ) == rows
        }),
{
    let rows = log_rows(timestamp, level, sanitized(text));
    if rows.len() <= MAX_LOG_LINES {
        let all = logged(logs, timestamp, level, text);
        assert(all.skip(all.len() - rows.len()) =~= rows);
    }
}

/// A command is admitted just where the server runs and takes commands, the command is one line
/// of something and not too long, and there is room in the queue; it goes to the end of the
/// queue, and nothing else changes.
pub proof fn law_commands_are_admitted_in_order(m: GuiModel, command: Seq<char>)
    ensures
        command_error(m, command) is None <==> {
            &&& m.snapshot.status == ServerStatus::Running
            &&& m.snapshot.commands_enabled
            &&& utf8_len(command) <= 4096
            &&& forall|i: int|
                0 <= i < command.len() ==> !is_control(#[trigger] command[i]) || command[i] == '\t'
            &&& trim(command).len() > 0
            &&& m.receiver_open
            &&& m.commands.len() < 32
        },
        with_command(m, command).commands.drop_last() == m.commands,
        with_command(m, command).commands.last() == trim(command),
        with_command(m, command).logs == m.logs,
        with_command(m, command).snapshot == m.snapshot,
        with_command(m, command).desired_running == m.desired_running,
        with_command(m, command).close_requested == m.close_requested,
{
    assert(with_command(m, command).commands.drop_last() =~= m.commands);
}

/// A stop takes a starting or running server to stopping, closes its console, and lowers the
/// wish for a running server where a supervisor listens. It changes nothing else, and nothing
/// at all of any other server.
pub proof fn law_a_stop_only_stops(m: GuiModel)
    ensures
        ({
            let after = stopping(m);
            let before = m.snapshot;
            let stops = before.status == ServerStatus::Starting || before.status
                == ServerStatus::Running;
            &&& !stops ==> after == m
            &&& stops ==> {
                &&& after.snapshot.status == ServerStatus::Stopping
                &&& !after.snapshot.commands_enabled
                &&& after.desired_running is Some <==> m.desired_running is Some
                &&& after.desired_running != Some(true)
            }
            &&& after.snapshot.players == before.players
            &&& after.snapshot.world_name == before.world_name
            &&& after.snapshot.uptime_nanos == before.uptime_nanos
            &&& after.snapshot.last_error == before.last_error
            &&& after.snapshot.memory_history == before.memory_history
            &&& after.logs == m.logs && after.commands == m.commands
            &&& after.receiver_open == m.receiver_open && after.receiver_taken == m.receiver_taken
            &&& after.supervised == m.supervised && after.close_requested == m.close_requested
        }),
{
}

/// A server is started just where a supervisor watches, the last server is gone and the window
/// stays.
pub proof fn law_starts_need_a_supervisor(m: GuiModel)
    ensures
        start_error(m) is None <==> m.desired_running is Some && m.supervised && !m.close_requested
            && (m.snapshot.status == ServerStatus::Stopped || m.snapshot.status
            == ServerStatus::Failed),
{
}

/// The end of a server is shown with its error where there is one: nobody plays any more, no
/// command is taken, and no further server is wished for. The log and the queue stay.
pub proof fn law_the_end_is_shown(m: GuiModel, error: Option<Seq<char>>, elapsed_nanos: u128)
    ensures
        ({
            let after = finished(m, error, elapsed_nanos);
            let s = after.snapshot;
            &&& error is None ==> s.status == ServerStatus::Stopped && s.last_error is None
            &&& error matches Some(e) ==> s.status == ServerStatus::Failed && s.last_error == Some(
                single_line(e),
            )
            &&& s.players.len() == 0
            &&& s.tps_bits == 0
            &&& !s.commands_enabled
            &&& m.desired_running is None ==> s.uptime_nanos == elapsed_nanos
                && after.desired_running is None
            &&& m.desired_running is Some ==> s.uptime_nanos == m.snapshot.uptime_nanos
                && after.desired_running == Some(false)
            &&& s.world_name == m.snapshot.world_name
            &&& s.memory_history == m.snapshot.memory_history
            &&& after.logs == m.logs && after.commands == m.commands
        }),
{
}

/// Time passes for a server of this process until its end; all else is shown as it is.
pub proof fn law_time_passes_until_the_end(m: GuiModel, elapsed_nanos: u128)
    ensures
        ({
            let seen = seen_snapshot(m, elapsed_nanos);
            let gone = m.snapshot.status == ServerStatus::Stopped || m.snapshot.status
                == ServerStatus::Failed;
            &&& seen.uptime_nanos == if m.desired_running is None && !gone {
                elapsed_nanos
            } else {
                m.snapshot.uptime_nanos
            }
            &&& seen.status == m.snapshot.status
            &&& seen.players == m.snapshot.players
            &&& seen.tps_bits == m.snapshot.tps_bits
            &&& seen.memory_bytes == m.snapshot.memory_bytes
            &&& seen.commands_enabled == m.snapshot.commands_enabled
        }),
{
}

/// Until the end a supervisor shows what its backend shows: its players, rates, addresses and
/// memory, and its status, but for a stop that has begun and an end that is not reaped yet.
pub proof fn law_backends_are_shown_as_they_are(
    m: GuiModel,
    update: SnapshotView,
    logs: Seq<LogView>,
)
    requires
        m.snapshot.status == ServerStatus::Starting || m.snapshot.status == ServerStatus::Running
            || m.snapshot.status == ServerStatus::Stopping,
    ensures
        ({
            let s = mirrored(m, update, logs).snapshot;
            let ends = update.status == ServerStatus::Stopped || update.status
                == ServerStatus::Failed;
            &&& m.snapshot.status != ServerStatus::Stopping && !ends ==> s.status == update.status
            &&& m.snapshot.status == ServerStatus::Stopping || ends ==> s.status
                == ServerStatus::Stopping
            &&& s.commands_enabled <==> update.commands_enabled && s.status == ServerStatus::Running
            &&& s.players == update.players
            &&& s.max_players == update.max_players
            &&& s.java_address == update.java_address
            &&& s.bedrock_address == update.bedrock_address
            &&& s.world_name == update.world_name
            &&& s.tps_bits == update.tps_bits
            &&& s.mspt_bits == update.mspt_bits
            &&& s.memory_bytes == update.memory_bytes
            &&& s.uptime_nanos == update.uptime_nanos
            &&& update.memory_history.len() <= MEMORY_HISTORY_CAPACITY ==> s.memory_history
                == update.memory_history
        }),
        mirrored(m, update, logs).commands == m.commands,
        mirrored(m, update, logs).desired_running == m.desired_running,
{
}

/// The rows of an update are the rows of its parts one after the other, each with its own time
/// and level; at most sixty-four go into one update, the oldest first.
pub proof fn law_updates_carry_rows_in_order(a: Seq<LogView>, b: Seq<LogView>)
    ensures
        mirrored_rows(a + b) == mirrored_rows(a) + mirrored_rows(b),
        b.len() == 1 ==> mirrored_rows(b) == log_rows(
            single_line(b[0].timestamp),
            b[0].level,
            sanitized(b[0].text),
        ),
        update_head(a).len() == if a.len() < 64 {
            a.len()
        } else {
            64
        },
        a.take(update_head(a).len() as int) == update_head(a),
    decreases b.len(),
{
    assert(a.take(update_head(a).len() as int) =~= update_head(a));
    if b.len() == 0 {
        assert(a + b =~= a);
        assert(mirrored_rows(a) + mirrored_rows(b) =~= mirrored_rows(a));
    } else {
        law_updates_carry_rows_in_order(a, b.drop_last());
        assert((a + b).drop_last() =~= a + b.drop_last());
        assert((a + b).last() == b.last());
        assert(mirrored_rows(a + b) =~= mirrored_rows(a) + mirrored_rows(b));
        if b.len() == 1 {
            reveal_with_fuel(mirrored_rows, 2);
            assert(mirrored_rows(b) =~= log_rows(
                single_line(b[0].timestamp),
                b[0].level,
                sanitized(b[0].text),
            ));
        }
    }
}

/// A time of day is its hour, minute and second, in two digits each.
pub proof fn law_clocks_show_the_time(hour: int, minute: int, second: int)
    requires
        0 <= hour < 100,
        0 <= minute < 100,
        0 <= second < 100,
    ensures
        ({
            let s = clock(hour, minute, second);
            &&& s.len() == 8
            &&& s[2] == ':' && s[5] == ':'
            &&& crate::text::all_digits(s.subrange(0, 2))
            &&& 10 * (s[0] as u32 - '0' as u32) + (s[1] as u32 - '0' as u32) == hour
            &&& 10 * (s[3] as u32 - '0' as u32) + (s[4] as u32 - '0' as u32) == minute
            &&& 10 * (s[6] as u32 - '0' as u32) + (s[7] as u32 - '0' as u32) == second
        }),
{
    let s = clock(hour, minute, second);
    assert(s.subrange(0, 2) =~= two_digits(hour));
}

/// A server that has come up is shown as it is configured: where it can be reached, how many
/// may play, and as running unless a stop was asked for meanwhile. Only the first is shown.
pub proof fn law_servers_are_shown_as_configured(m: GuiModel, info: ServerInfo, stop_requested: bool)
    ensures
        m.receiver_taken ==> attached(m, info, stop_requested) == m,
        !m.receiver_taken ==> attached(m, info, stop_requested).receiver_taken,
        !m.receiver_taken && (m.snapshot.status == ServerStatus::Stopped || m.snapshot.status
            == ServerStatus::Failed) ==> {
            let after = attached(m, info, stop_requested);
            &&& !after.receiver_open
            &&& after.commands.len() == 0
            &&& after.snapshot == m.snapshot
        },
        !m.receiver_taken && m.snapshot.status != ServerStatus::Stopped && m.snapshot.status
            != ServerStatus::Failed ==> {
            let after = attached(m, info, stop_requested);
            let s = after.snapshot;
            &&& s.world_name == info.world_name@
            &&& s.java_address is Some <==> info.java_enabled
            &&& s.java_address matches Some(a) ==> a == info.java_address@
            &&& s.bedrock_address is Some <==> info.bedrock_enabled && info.nethernet_enabled
            &&& s.bedrock_address matches Some(a) ==> a == info.nethernet_address@
            &&& info.java_enabled ==> s.max_players == info.java_max_players
            &&& !info.java_enabled && info.bedrock_enabled ==> s.max_players
                == info.bedrock_max_players
            &&& !info.java_enabled && !info.bedrock_enabled ==> s.max_players == 0
            &&& s.target_tps_bits == info.target_tps_bits
            &&& s.status == ServerStatus::Running <==> m.snapshot.status == ServerStatus::Starting
                && !stop_requested
            &&& s.status == ServerStatus::Running || s.status == ServerStatus::Stopping
            &&& s.status == ServerStatus::Running ==> s.commands_enabled == info.use_console
            &&& after.commands == m.commands && after.receiver_open == m.receiver_open
        },
{
}

/// A sample shows the players, the rates and the time as they are; a memory sample joins the
/// history, and the last one stands where there is none. Samples are numbered on.
pub proof fn law_samples_show_the_server(
    s: SnapshotView,
    players: Seq<PlayerView>,
    rates: TickRates,
    memory_bytes: Option<u64>,
    elapsed_nanos: u128,
)
    ensures
        ({
            let after = sampled_snapshot(s, players, rates, memory_bytes, elapsed_nanos);
            &&& after.players == players
            &&& after.tps_bits == rates.tps_bits
            &&& after.mspt_bits == rates.mspt_bits
            &&& after.target_tps_bits == rates.target_tps_bits
            &&& after.tick_frozen == rates.frozen
            &&& after.uptime_nanos == elapsed_nanos
            &&& s.sample_id < u64::MAX ==> after.sample_id == s.sample_id + 1
            &&& s.sample_id == u64::MAX ==> after.sample_id == s.sample_id
            &&& memory_bytes is None ==> after.memory_bytes == s.memory_bytes
                && after.memory_history == s.memory_history
            &&& memory_bytes matches Some(b) ==> {
                &&& after.memory_bytes == b
                &&& after.memory_history.len() > 0
                &&& after.memory_history.last() == b
                &&& s.memory_history.len() < MEMORY_HISTORY_CAPACITY ==> after.memory_history
                    == s.memory_history.push(b)
                &&& s.memory_history.len() == MEMORY_HISTORY_CAPACITY ==> after.memory_history
                    == s.memory_history.drop_first().push(b)
            }
            &&& after.status == s.status
            &&& after.commands_enabled == s.commands_enabled
            &&& after.max_players == s.max_players
        }),
{
    if let Some(b) = memory_bytes {
        if s.memory_history.len() == MEMORY_HISTORY_CAPACITY {
            assert(s.memory_history.push(b).skip(1) =~= s.memory_history.drop_first().push(b));
        }
    }
}

/// A player is listed under their own id and name, with the edition that they play and as an
/// operator just where their id is one's.
pub proof fn law_players_are_listed_as_they_are(player: OnlinePlayer, operators: Seq<u128>)
    ensures
        listed(player, operators).id == player.id,
        listed(player, operators).name == single_line(player.name@),
        listed(player, operators).is_op <==> exists|i: int|
            0 <= i < operators.len() && operators[i] == player.id,
        player.bedrock ==> listed(player, operators).edition == "Bedrock"@,
        !player.bedrock ==> listed(player, operators).edition == "Java"@,
{
}

/// A window begins with an empty log and queue, open for commands, and with a supervisor just
/// where one was asked for.
pub proof fn law_windows_begin_empty(desired_running: Option<bool>)
    ensures
        ({
            let m = initial_model(desired_running);
            &&& m.snapshot.status == ServerStatus::Starting
            &&& m.snapshot.players.len() == 0
            &&& !m.snapshot.commands_enabled
            &&& m.snapshot.last_error is None
            &&& m.logs.len() == 0 && m.commands.len() == 0
            &&& m.receiver_open && !m.receiver_taken && !m.close_requested
            &&& m.supervised <==> desired_running is Some
            &&& m.desired_running == desired_running
        }),
{
}

} // verus!

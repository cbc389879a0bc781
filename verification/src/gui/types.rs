//! What the window shows of the server.

use std::collections::VecDeque;
use vstd::prelude::*;

verus! {

pub const MEMORY_HISTORY_CAPACITY: usize = 256;

/// The time between two memory samples, in milliseconds.
pub const MEMORY_SAMPLE_INTERVAL_MILLIS: u64 = 500;

/// The version that the library reports.
pub const VERSION: &'static str = "0.1.0";

/// The bits of the floating-point number 20.0: the tick rate before the server says
/// otherwise.
pub const DEFAULT_TARGET_TPS_BITS: u64 = 0x4034_0000_0000_0000;

#[derive(Clone, Copy, Debug, PartialEq, Eq, Structural)]
pub enum ServerStatus {
    Starting,
    Running,
    Stopping,
    Stopped,
    Failed,
}

/// Whether the server is gone and may be started again.
pub open spec fn is_terminal(status: ServerStatus) -> bool {
    status == ServerStatus::Stopped || status == ServerStatus::Failed
}

/// Whether the server is gone.
pub fn has_stopped(status: ServerStatus) -> (r: bool)
    ensures
        r == is_terminal(status),
{
    matches!(status, ServerStatus::Stopped | ServerStatus::Failed)
}

/// The severity of a log line.
#[derive(Clone, Copy, Debug, PartialEq, Eq, Structural)]
pub enum Level {
    Error,
    Warn,
    Info,
    Debug,
    Trace,
}

/// A player who is online.
#[derive(Debug)]
pub struct GuiPlayer {
    pub id: u128,
    pub name: String,
    pub edition: String,
    pub is_op: bool,
}

pub struct PlayerView {
    pub id: u128,
    pub name: Seq<char>,
    pub edition: Seq<char>,
    pub is_op: bool,
}

impl View for GuiPlayer {
    type V = PlayerView;

    open spec fn view(&self) -> PlayerView {
        PlayerView { id: self.id, name: self.name@, edition: self.edition@, is_op: self.is_op }
    }
}

impl Clone for GuiPlayer {
    fn clone(&self) -> (r: Self)
        ensures
            r@ == self@,
    {
        GuiPlayer {
            id: self.id,
            name: self.name.clone(),
            edition: self.edition.clone(),
            is_op: self.is_op,
        }
    }
}

/// The players that a list stands for.
pub open spec fn player_views(players: Seq<GuiPlayer>) -> Seq<PlayerView> {
    players.map_values(|p: GuiPlayer| p@)
}

/// A row of the console.
#[derive(Debug)]
pub struct LogLine {
    pub timestamp: String,
    pub level: Level,
    pub text: String,
}

pub struct LogView {
    pub timestamp: Seq<char>,
    pub level: Level,
    pub text: Seq<char>,
}

impl View for LogLine {
    type V = LogView;

    open spec fn view(&self) -> LogView {
        LogView { timestamp: self.timestamp@, level: self.level, text: self.text@ }
    }
}

impl Clone for LogLine {
    fn clone(&self) -> (r: Self)
        ensures
            r@ == self@,
    {
        LogLine { timestamp: self.timestamp.clone(), level: self.level, text: self.text.clone() }
    }
}

/// The rows that a list stands for.
pub open spec fn log_views(logs: Seq<LogLine>) -> Seq<LogView> {
    logs.map_values(|l: LogLine| l@)
}

/// The text of an optional string.
pub open spec fn option_text(s: Option<String>) -> Option<Seq<char>> {
    match s {
        Some(s) => Some(s@),
        None => None,
    }
}

/// The state of the server at one moment. Rates are kept as the bits of their
/// floating-point numbers, and the uptime in nanoseconds.
#[derive(Debug)]
pub struct ServerSnapshot {
    pub status: ServerStatus,
    pub version: String,
    pub world_name: String,
    pub java_address: Option<String>,
    pub bedrock_address: Option<String>,
    pub players: Vec<GuiPlayer>,
    pub max_players: usize,
    pub tps_bits: u64,
    pub mspt_bits: u64,
    pub target_tps_bits: u64,
    pub tick_frozen: bool,
    pub memory_bytes: u64,
    /// Recent memory samples, oldest first.
    pub memory_history: VecDeque<u64>,
    pub uptime_nanos: u128,
    pub sample_id: u64,
    pub last_error: Option<String>,
    pub commands_enabled: bool,
}

pub struct SnapshotView {
    pub status: ServerStatus,
    pub version: Seq<char>,
    pub world_name: Seq<char>,
    pub java_address: Option<Seq<char>>,
    pub bedrock_address: Option<Seq<char>>,
    pub players: Seq<PlayerView>,
    pub max_players: usize,
    pub tps_bits: u64,
    pub mspt_bits: u64,
    pub target_tps_bits: u64,
    pub tick_frozen: bool,
    pub memory_bytes: u64,
    pub memory_history: Seq<u64>,
    pub uptime_nanos: u128,
    pub sample_id: u64,
    pub last_error: Option<Seq<char>>,
    pub commands_enabled: bool,
}

impl View for ServerSnapshot {
    type V = SnapshotView;

    open spec fn view(&self) -> SnapshotView {
        SnapshotView {
            status: self.status,
            version: self.version@,
            world_name: self.world_name@,
            java_address: option_text(self.java_address),
            bedrock_address: option_text(self.bedrock_address),
            players: player_views(self.players@),
            max_players: self.max_players,
            tps_bits: self.tps_bits,
            mspt_bits: self.mspt_bits,
            target_tps_bits: self.target_tps_bits,
            tick_frozen: self.tick_frozen,
            memory_bytes: self.memory_bytes,
            memory_history: self.memory_history@,
            uptime_nanos: self.uptime_nanos,
            sample_id: self.sample_id,
            last_error: option_text(self.last_error),
            commands_enabled: self.commands_enabled,
        }
    }
}

/// The snapshot of a server that has not started.
pub open spec fn starting_snapshot() -> SnapshotView {
    SnapshotView {
        status: ServerStatus::Starting,
        version: VERSION@,
        world_name: Seq::empty(),
        java_address: None,
        bedrock_address: None,
        players: Seq::empty(),
        max_players: 0,
        tps_bits: 0,
        mspt_bits: 0,
        target_tps_bits: DEFAULT_TARGET_TPS_BITS,
        tick_frozen: false,
        memory_bytes: 0,
        memory_history: Seq::empty(),
        uptime_nanos: 0,
        sample_id: 0,
        last_error: None,
        commands_enabled: false,
    }
}

/// The last `n` items of a sequence, or all of a shorter one.
pub open spec fn keep_last<T>(s: Seq<T>, n: nat) -> Seq<T> {
    if s.len() <= n {
        s
    } else {
        s.skip(s.len() - n)
    }
}

/// Appends to a queue that holds at most `capacity` items: the oldest goes where it is
/// full.
pub fn push_bounded<T>(queue: &mut VecDeque<T>, item: T, capacity: usize)
    requires
        capacity > 0,
        old(queue)@.len() <= capacity,
    ensures
        final(queue)@ == keep_last(old(queue)@.push(item), capacity as nat),
        final(queue)@.len() <= capacity,
{
    if queue.len() == capacity {
        queue.pop_front();
    }
    queue.push_back(item);
    assert(queue@ =~= keep_last(old(queue)@.push(item), capacity as nat));
}

/// Pushing one after another keeps the last of all that was pushed.
pub proof fn lemma_keep_last_push<T>(s: Seq<T>, item: T, n: nat)
    requires
        n > 0,
    ensures
        keep_last(keep_last(s, n).push(item), n) == keep_last(s.push(item), n),
{
    assert(keep_last(keep_last(s, n).push(item), n) =~= keep_last(s.push(item), n));
}

/// Keeping the last of each and then of all is keeping the last of all.
pub proof fn lemma_keep_last_concat<T>(a: Seq<T>, b: Seq<T>, n: nat)
    ensures
        keep_last(keep_last(a, n) + b, n) == keep_last(a + b, n),
{
    assert(keep_last(keep_last(a, n) + b, n) =~= keep_last(a + b, n));
}

impl ServerSnapshot {
    pub fn starting() -> (r: Self)
        ensures
            r@ == starting_snapshot(),
    {
        let r = ServerSnapshot {
            status: ServerStatus::Starting,
            version: VERSION.to_owned(),
            world_name: String::new(),
            java_address: None,
            bedrock_address: None,
            players: Vec::new(),
            max_players: 0,
            tps_bits: 0,
            mspt_bits: 0,
            target_tps_bits: DEFAULT_TARGET_TPS_BITS,
            tick_frozen: false,
            memory_bytes: 0,
            memory_history: VecDeque::new(),
            uptime_nanos: 0,
            sample_id: 0,
            last_error: None,
            commands_enabled: false,
        };
        assert(r@.players =~= Seq::<PlayerView>::empty());
        r
    }

    /// Records a memory sample; the history keeps the latest samples.
    pub fn record_memory_sample(&mut self, memory_bytes: u64)
        requires
            old(self).memory_history@.len() <= MEMORY_HISTORY_CAPACITY,
        ensures
            final(self)@ == (SnapshotView {
                memory_bytes,
                memory_history: keep_last(
                    old(self)@.memory_history.push(memory_bytes),
                    MEMORY_HISTORY_CAPACITY as nat,
                ),
                ..old(self)@
            }),
            final(self).memory_history@.len() <= MEMORY_HISTORY_CAPACITY,
    {
        self.memory_bytes = memory_bytes;
        push_bounded(&mut self.memory_history, memory_bytes, MEMORY_HISTORY_CAPACITY);
    }
}

/// A copy of a list of players.
pub fn copy_players(players: &Vec<GuiPlayer>) -> (r: Vec<GuiPlayer>)
    ensures
        player_views(r@) == player_views(players@),
{
    let mut r: Vec<GuiPlayer> = Vec::new();
    let mut i: usize = 0;
    while i < players.len()
        invariant
            i <= players@.len(),
            player_views(r@) == player_views(players@).take(i as int),
        decreases players@.len() - i,
    {
        let ghost before = player_views(r@);
        let p = players[i].clone();
        r.push(p);
        assert(player_views(r@) =~= before.push(p@));
        assert(player_views(players@).take(i + 1) =~= before.push(players@[i as int]@));
        i = i + 1;
    }
    assert(player_views(r@) =~= player_views(players@));
    r
}

/// A copy of an optional string.
pub fn copy_option(s: &Option<String>) -> (r: Option<String>)
    ensures
        option_text(r) == option_text(*s),
{
    match s {
        Some(s) => Some(s.clone()),
        None => None,
    }
}

impl Clone for ServerSnapshot {
    fn clone(&self) -> (r: Self)
        ensures
            r@ == self@,
    {
        let memory_history = self.memory_history.clone();
        assert(memory_history@ =~= self.memory_history@);
        ServerSnapshot {
            status: self.status,
            version: self.version.clone(),
            world_name: self.world_name.clone(),
            java_address: copy_option(&self.java_address),
            bedrock_address: copy_option(&self.bedrock_address),
            players: copy_players(&self.players),
            max_players: self.max_players,
            tps_bits: self.tps_bits,
            mspt_bits: self.mspt_bits,
            target_tps_bits: self.target_tps_bits,
            tick_frozen: self.tick_frozen,
            memory_bytes: self.memory_bytes,
            memory_history,
            uptime_nanos: self.uptime_nanos,
            sample_id: self.sample_id,
            last_error: copy_option(&self.last_error),
            commands_enabled: self.commands_enabled,
        }
    }
}

/// Of a sequence the end is kept, as much of it as there is room for.
pub proof fn law_the_end_is_kept<T>(s: Seq<T>, n: nat)
    ensures
        keep_last(s, n).len() == if s.len() <= n {
            s.len()
        } else {
            n
        },
        s == s.take(s.len() - keep_last(s, n).len()) + keep_last(s, n),
{
    assert(s =~= s.take(s.len() - keep_last(s, n).len()) + keep_last(s, n));
}

} // verus!

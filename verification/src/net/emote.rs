//! Bedrock emotes as arm movements that Java clients can show.

use crate::ids::{parse_uuid, uuid_parsed};
use vstd::prelude::*;

verus! {

/// The ticks between two emotes of a player.
pub const MIN_INTERVAL_TICKS: i32 = 4;

/// An emote that is shown in its own way.
#[derive(Clone, Copy, Debug, PartialEq, Eq, Structural)]
pub enum JavaEmote {
    Wave,
    Clap,
    Point,
    FollowMe,
    Fallback,
}

/// The arm that moves.
#[derive(Clone, Copy, Debug, PartialEq, Eq, Structural)]
pub enum ArmSwing {
    Main,
    Off,
}

/// A movement, and the milliseconds before it.
#[derive(Clone, Copy, Debug, PartialEq, Eq, Structural)]
pub struct EmoteFrame {
    pub delay_millis: u64,
    pub swing: ArmSwing,
}

/// The emote of an id.
pub open spec fn emote_of(id: u128) -> JavaEmote {
    if id == 0x4c8a_e710_df2e_47cd_814d_cc7b_f21a_3d67u128 {
        JavaEmote::Wave
    } else if id == 0x9a46_9a61_c83b_4ba9_b507_bdbe_6443_0582u128 {
        JavaEmote::Clap
    } else if id == 0xce5c_0300_7f03_455d_aaf1_352e_4927_b54du128 {
        JavaEmote::Point
    } else if id == 0x1742_8c4c_3813_4ea1_b3a9_d6a3_2f83_afcau128 {
        JavaEmote::FollowMe
    } else {
        JavaEmote::Fallback
    }
}

/// A movement after a delay.
pub open spec fn swing(delay_millis: u64, swing: ArmSwing) -> EmoteFrame {
    EmoteFrame { delay_millis, swing }
}

/// The movements of an emote.
pub open spec fn emote_frames(emote: JavaEmote) -> Seq<EmoteFrame> {
    match emote {
        JavaEmote::Wave => seq![
            swing(0, ArmSwing::Main),
            swing(250, ArmSwing::Main),
            swing(250, ArmSwing::Main),
            swing(250, ArmSwing::Main),
        ],
        JavaEmote::Clap => seq![
            swing(0, ArmSwing::Main),
            swing(0, ArmSwing::Off),
            swing(300, ArmSwing::Main),
            swing(0, ArmSwing::Off),
            swing(300, ArmSwing::Main),
            swing(0, ArmSwing::Off),
        ],
        JavaEmote::Point => seq![swing(0, ArmSwing::Main)],
        JavaEmote::FollowMe => seq![
            swing(0, ArmSwing::Main),
            swing(300, ArmSwing::Main),
            swing(300, ArmSwing::Main),
        ],
        JavaEmote::Fallback => seq![swing(0, ArmSwing::Main)],
    }
}

fn frame(delay_millis: u64, swing: ArmSwing) -> (r: EmoteFrame)
    ensures
        r == self::swing(delay_millis, swing),
{
    EmoteFrame { delay_millis, swing }
}

impl JavaEmote {
    /// The emote of an id; unknown ones share a short movement.
    pub fn from_id(id: u128) -> (r: Self)
        ensures
            r == emote_of(id),
    {
        if id == 0x4c8a_e710_df2e_47cd_814d_cc7b_f21a_3d67 {
            JavaEmote::Wave
        } else if id == 0x9a46_9a61_c83b_4ba9_b507_bdbe_6443_0582 {
            JavaEmote::Clap
        } else if id == 0xce5c_0300_7f03_455d_aaf1_352e_4927_b54d {
            JavaEmote::Point
        } else if id == 0x1742_8c4c_3813_4ea1_b3a9_d6a3_2f83_afca {
            JavaEmote::FollowMe
        } else {
            JavaEmote::Fallback
        }
    }

    /// The movements of the emote. Each delay is relative to the movement before.
    pub fn frames(self) -> (r: Vec<EmoteFrame>)
        ensures
            r@ == emote_frames(self),
    {
        let r = match self {
            JavaEmote::Wave => vec![
                frame(0, ArmSwing::Main),
                frame(250, ArmSwing::Main),
                frame(250, ArmSwing::Main),
                frame(250, ArmSwing::Main),
            ],
            JavaEmote::Clap => vec![
                frame(0, ArmSwing::Main),
                frame(0, ArmSwing::Off),
                frame(300, ArmSwing::Main),
                frame(0, ArmSwing::Off),
                frame(300, ArmSwing::Main),
                frame(0, ArmSwing::Off),
            ],
            JavaEmote::Point | JavaEmote::Fallback => vec![frame(0, ArmSwing::Main)],
            JavaEmote::FollowMe => vec![
                frame(0, ArmSwing::Main),
                frame(300, ArmSwing::Main),
                frame(300, ArmSwing::Main),
            ],
        };
        assert(r@ =~= emote_frames(self));
        r
    }
}

/// When a player last emoted, and how many emotes were shown.
#[derive(Clone, Copy, Debug, PartialEq, Eq, Structural)]
pub struct EmoteState {
    pub last_tick: i32,
    pub sequence: u32,
}

/// An emote to show: its movements, and the number that stays current until the next.
pub struct EmotePlan {
    pub frames: Vec<EmoteFrame>,
    pub sequence: u32,
}

/// Whether enough ticks have passed since the last emote.
pub open spec fn interval_passed(last_tick: i32, tick: i32) -> bool {
    tick - last_tick >= MIN_INTERVAL_TICKS
}

/// The number after another; it starts over at the end.
pub open spec fn next_sequence(sequence: u32) -> u32 {
    if sequence == u32::MAX {
        0
    } else {
        (sequence + 1) as u32
    }
}

impl EmoteState {
    /// Starts an emote whose id was read. Every request counts for the interval, also
    /// those that come too early and are dropped.
    pub fn start(&mut self, id: Option<u128>, tick: i32) -> (r: Option<EmotePlan>)
        ensures
            id is None ==> r is None && *final(self) == *old(self),
            id is Some ==> final(self).last_tick == tick,
            id is Some ==> r is Some == interval_passed(old(self).last_tick, tick),
            id is Some && r is None ==> final(self).sequence == old(self).sequence,
            r matches Some(plan) ==> {
                &&& plan.frames@ == emote_frames(emote_of(id->0))
                &&& plan.sequence == next_sequence(old(self).sequence)
                &&& final(self).sequence == plan.sequence
            },
    {
        let id: u128 = id?;
        let previous: i32 = self.last_tick;
        self.last_tick = tick;
        let passed: i64 = tick as i64 - previous as i64;
        if passed < MIN_INTERVAL_TICKS as i64 {
            return None;
        }
        let sequence: u32 = if self.sequence == u32::MAX {
            0
        } else {
            self.sequence + 1
        };
        self.sequence = sequence;
        Some(EmotePlan { frames: JavaEmote::from_id(id).frames(), sequence })
    }

    /// Starts the emote that a client names.
    pub fn broadcast(&mut self, emote_id: &str, tick: i32) -> (r: Option<EmotePlan>)
        ensures
            uuid_parsed(emote_id@) is None ==> r is None && *final(self) == *old(self),
            uuid_parsed(emote_id@) is Some ==> final(self).last_tick == tick,
            uuid_parsed(emote_id@) is Some ==> r is Some == interval_passed(
                old(self).last_tick,
                tick,
            ),
            uuid_parsed(emote_id@) is Some && r is None ==> final(self).sequence == old(
                self,
            ).sequence,
            r matches Some(plan) ==> {
                &&& plan.frames@ == emote_frames(emote_of(uuid_parsed(emote_id@)->0))
                &&& plan.sequence == next_sequence(old(self).sequence)
                &&& final(self).sequence == plan.sequence
            },
    {
        self.start(parse_uuid(emote_id), tick)
    }

    /// Whether the next movement of an emote is still to be shown.
    pub fn continues(&self, sequence: u32, closed: bool) -> (r: bool)
        ensures
            r == (self.sequence == sequence && !closed),
    {
        self.sequence == sequence && !closed
    }
}

/// Every emote has between one and eight movements, and the first comes at once.
pub proof fn law_emotes_are_short(emote: JavaEmote)
    ensures
        1 <= emote_frames(emote).len() <= 8,
        emote_frames(emote)[0].delay_millis == 0,
{
}

/// The emotes with movements of their own are those of the four known ids, and no two ids share
/// one of them; all others share one short movement.
pub proof fn law_known_emotes_have_their_ids(a: u128, b: u128)
    ensures
        emote_of(a) == emote_of(b) && emote_of(a) != JavaEmote::Fallback ==> a == b,
        emote_frames(JavaEmote::Fallback).len() == 1,
        emote_of(0) == JavaEmote::Fallback,
{
}

/// Movements come in beats of their own: a wave is four of the main arm, a quarter of a second
/// apart; clapping is both arms at once, three times; pointing is one movement; and following is
/// three of the main arm.
pub proof fn law_emotes_keep_their_beat(k: int)
    ensures
        emote_frames(JavaEmote::Wave).len() == 4,
        0 <= k < 4 ==> emote_frames(JavaEmote::Wave)[k].swing == ArmSwing::Main,
        1 <= k < 4 ==> emote_frames(JavaEmote::Wave)[k].delay_millis == 250,
        emote_frames(JavaEmote::Clap).len() == 6,
        0 <= k < 6 ==> (emote_frames(JavaEmote::Clap)[k].swing == ArmSwing::Main <==> k % 2 == 0),
        0 <= k < 6 ==> emote_frames(JavaEmote::Clap)[k].delay_millis == if k == 2 || k == 4 {
            300u64
        } else {
            0
        },
        emote_frames(JavaEmote::Point).len() == 1,
        emote_frames(JavaEmote::FollowMe).len() == 3,
        0 <= k < 3 ==> emote_frames(JavaEmote::FollowMe)[k].swing == ArmSwing::Main,
        1 <= k < 3 ==> emote_frames(JavaEmote::FollowMe)[k].delay_millis == 300,
{
}

/// An emote comes too early within four ticks of the last, and each that is shown has a number
/// that the one before did not have.
pub proof fn law_emotes_keep_their_distance(last_tick: i32, tick: i32, sequence: u32)
    ensures
        interval_passed(last_tick, tick) <==> tick >= last_tick + 4,
        next_sequence(sequence) != sequence,
        sequence < 0xffff_ffff ==> next_sequence(sequence) == sequence + 1,
        sequence == 0xffff_ffff ==> next_sequence(sequence) == 0,
{
}

} // verus!

//! Player menu actions, which run as ordinary console commands.

use super::state::{command_error, has_control, holds_control, with_command, GuiHandle, GuiModel, MAX_COMMAND_BYTES};
use super::text::{trim, trim_chars};
use super::types::{GuiPlayer, PlayerView};
use crate::bytes::signed_32;
use crate::text::{chars_of, push_signed_decimal, signed_decimal, string_of, utf8_len};
use vstd::prelude::*;

verus! {

#[derive(Clone, Copy, Debug, PartialEq, Eq, Structural)]
pub enum PlayerAction {
    Kick,
    Ban,
    Op,
    Deop,
    WhitelistAdd,
    WhitelistRemove,
    Survival,
    Creative,
    Adventure,
    Spectator,
    Kill,
    ClearInventory,
}

/// The name of an action.
pub open spec fn label_text(action: PlayerAction) -> Seq<char> {
    match action {
        PlayerAction::Kick => "Kick"@,
        PlayerAction::Ban => "Ban"@,
        PlayerAction::Op => "Op"@,
        PlayerAction::Deop => "Deop"@,
        PlayerAction::WhitelistAdd => "Add to whitelist"@,
        PlayerAction::WhitelistRemove => "Remove from whitelist"@,
        PlayerAction::Survival => "Survival"@,
        PlayerAction::Creative => "Creative"@,
        PlayerAction::Adventure => "Adventure"@,
        PlayerAction::Spectator => "Spectator"@,
        PlayerAction::Kill => "Kill"@,
        PlayerAction::ClearInventory => "Clear inventory"@,
    }
}

/// What an action does, in words.
pub open spec fn description_text(action: PlayerAction) -> Seq<char> {
    match action {
        PlayerAction::Kick => "Disconnect this player. They can join again."@,
        PlayerAction::Ban => "Ban and disconnect this player. They cannot join until pardoned."@,
        PlayerAction::Op => "Grant this player the server's configured operator permissions."@,
        PlayerAction::Deop => "Remove this player's operator permissions."@,
        PlayerAction::WhitelistAdd => "Allow this player to join when the whitelist is enabled."@,
        PlayerAction::WhitelistRemove =>
            "Remove this player from the whitelist. Whitelist enforcement may disconnect them."@,
        PlayerAction::Survival => "Change this player to Survival mode."@,
        PlayerAction::Creative =>
            "Change this player to Creative mode, with flight and unlimited items."@,
        PlayerAction::Adventure =>
            "Change this player to Adventure mode, restricting block changes."@,
        PlayerAction::Spectator =>
            "Change this player to Spectator mode, without normal interaction."@,
        PlayerAction::Kill => "Kill this player. Items may drop according to the world's game rules."@,
        PlayerAction::ClearInventory =>
            "Delete the items in this player's inventory. This cannot be undone."@,
    }
}

/// The start of the command that an action runs.
pub open spec fn command_prefix(action: PlayerAction) -> Seq<char> {
    match action {
        PlayerAction::Kick => "kick "@,
        PlayerAction::Ban => "ban "@,
        PlayerAction::Op => "op "@,
        PlayerAction::Deop => "deop "@,
        PlayerAction::WhitelistAdd => "whitelist add "@,
        PlayerAction::WhitelistRemove => "whitelist remove "@,
        PlayerAction::Survival => "gamemode survival "@,
        PlayerAction::Creative => "gamemode creative "@,
        PlayerAction::Adventure => "gamemode adventure "@,
        PlayerAction::Spectator => "gamemode spectator "@,
        PlayerAction::Kill => "kill "@,
        PlayerAction::ClearInventory => "clear "@,
    }
}

/// Whether an action takes a reason.
pub open spec fn takes_reason(action: PlayerAction) -> bool {
    action == PlayerAction::Kick || action == PlayerAction::Ban
}

/// Whether an action makes sense for a player who is, or is not, an operator.
pub open spec fn fits_operator(action: PlayerAction, is_op: bool) -> bool {
    match action {
        PlayerAction::Op => !is_op,
        PlayerAction::Deop => is_op,
        _ => true,
    }
}

/// The 32 bits of an id that start at bit `shift`, as a signed number.
pub open spec fn id_word(id: u128, divisor: nat) -> int {
    let word = (id as nat / divisor) % 0x1_0000_0000;
    if word >= 0x8000_0000 {
        word - 0x1_0000_0000
    } else {
        word as int
    }
}

/// The selector of exactly the player with an id. It never holds a display name.
pub open spec fn target_text(id: u128) -> Seq<char> {
    "@a[nbt={UUID:[I;"@ + signed_decimal(id_word(id, 0x1_0000_0000_0000_0000_0000_0000))
        + seq![','] + signed_decimal(id_word(id, 0x1_0000_0000_0000_0000)) + seq![',']
        + signed_decimal(id_word(id, 0x1_0000_0000)) + seq![','] + signed_decimal(id_word(id, 1))
        + "]},limit=1]"@
}

/// The command of an action, or why there is none.
pub open spec fn action_command(
    action: PlayerAction,
    id: u128,
    reason: Seq<char>,
) -> Result<Seq<char>, Seq<char>> {
    if utf8_len(reason) > MAX_COMMAND_BYTES {
        Err("Reasons are limited to 4096 bytes."@)
    } else if has_control(reason) {
        Err("Enter a one-line reason without control characters."@)
    } else if trim(reason).len() > 0 && !takes_reason(action) {
        Err("This player action does not accept a reason."@)
    } else {
        let command = command_prefix(action) + target_text(id);
        Ok(
            if trim(reason).len() > 0 {
                command + seq![' '] + trim(reason)
            } else {
                command
            },
        )
    }
}

/// The first listed player with an id.
pub open spec fn find_player(players: Seq<PlayerView>, id: u128) -> Option<PlayerView>
    decreases players.len(),
{
    if players.len() == 0 {
        None
    } else if players[0].id == id {
        Some(players[0])
    } else {
        find_player(players.drop_first(), id)
    }
}

/// What comes of an action: the queued command, or why there is none, and the state
/// then. A refused action leaves the state as it was.
pub open spec fn submitted_action(
    m: GuiModel,
    id: u128,
    action: PlayerAction,
    reason: Seq<char>,
) -> (Result<Seq<char>, Seq<char>>, GuiModel) {
    match find_player(m.snapshot.players, id) {
        None => (Err("This player is no longer online."@), m),
        Some(player) => if !fits_operator(action, player.is_op) {
            (
                Err(
                    if player.is_op {
                        "This player is already an operator."@
                    } else {
                        "This player is no longer an operator."@
                    },
                ),
                m,
            )
        } else {
            match action_command(action, id, reason) {
                Err(e) => (Err(e), m),
                Ok(command) => match command_error(m, command) {
                    Some(e) => (Err(e), m),
                    None => (Ok(command), with_command(m, command)),
                },
            }
        },
    }
}

/// A result with its texts.
pub open spec fn result_text(r: Result<String, String>) -> Result<Seq<char>, Seq<char>> {
    match r {
        Ok(s) => Ok(s@),
        Err(s) => Err(s@),
    }
}

impl PlayerAction {
    pub fn label(self) -> (r: &'static str)
        ensures
            r@ == label_text(self),
    {
        match self {
            PlayerAction::Kick => "Kick",
            PlayerAction::Ban => "Ban",
            PlayerAction::Op => "Op",
            PlayerAction::Deop => "Deop",
            PlayerAction::WhitelistAdd => "Add to whitelist",
            PlayerAction::WhitelistRemove => "Remove from whitelist",
            PlayerAction::Survival => "Survival",
            PlayerAction::Creative => "Creative",
            PlayerAction::Adventure => "Adventure",
            PlayerAction::Spectator => "Spectator",
            PlayerAction::Kill => "Kill",
            PlayerAction::ClearInventory => "Clear inventory",
        }
    }

    pub fn description(self) -> (r: &'static str)
        ensures
            r@ == description_text(self),
    {
        match self {
            PlayerAction::Kick => "Disconnect this player. They can join again.",
            PlayerAction::Ban => "Ban and disconnect this player. They cannot join until pardoned.",
            PlayerAction::Op => "Grant this player the server's configured operator permissions.",
            PlayerAction::Deop => "Remove this player's operator permissions.",
            PlayerAction::WhitelistAdd => "Allow this player to join when the whitelist is enabled.",
            PlayerAction::WhitelistRemove => {
                "Remove this player from the whitelist. Whitelist enforcement may disconnect them."
            },
            PlayerAction::Survival => "Change this player to Survival mode.",
            PlayerAction::Creative => {
                "Change this player to Creative mode, with flight and unlimited items."
            },
            PlayerAction::Adventure => "Change this player to Adventure mode, restricting block changes.",
            PlayerAction::Spectator => {
                "Change this player to Spectator mode, without normal interaction."
            },
            PlayerAction::Kill => {
                "Kill this player. Items may drop according to the world's game rules."
            },
            PlayerAction::ClearInventory => {
                "Delete the items in this player's inventory. This cannot be undone."
            },
        }
    }

    pub fn accepts_reason(self) -> (r: bool)
        ensures
            r == takes_reason(self),
    {
        matches!(self, PlayerAction::Kick | PlayerAction::Ban)
    }

    pub fn matches_operator_state(self, is_op: bool) -> (r: bool)
        ensures
            r == fits_operator(self, is_op),
    {
        match self {
            PlayerAction::Op => !is_op,
            PlayerAction::Deop => is_op,
            _ => true,
        }
    }

    fn prefix(self) -> (r: &'static str)
        ensures
            r@ == command_prefix(self),
    {
        match self {
            PlayerAction::Kick => "kick ",
            PlayerAction::Ban => "ban ",
            PlayerAction::Op => "op ",
            PlayerAction::Deop => "deop ",
            PlayerAction::WhitelistAdd => "whitelist add ",
            PlayerAction::WhitelistRemove => "whitelist remove ",
            PlayerAction::Survival => "gamemode survival ",
            PlayerAction::Creative => "gamemode creative ",
            PlayerAction::Adventure => "gamemode adventure ",
            PlayerAction::Spectator => "gamemode spectator ",
            PlayerAction::Kill => "kill ",
            PlayerAction::ClearInventory => "clear ",
        }
    }

    /// The command of the action.
    pub fn command(self, id: u128, reason: &str) -> (r: Result<String, String>)
        ensures
            result_text(r) == action_command(self, id, reason@),
    {
        proof {
            crate::text::lemma_utf8_len_is_encoded_len(reason@);
        }
        if reason.as_bytes().len() > MAX_COMMAND_BYTES {
            return Err("Reasons are limited to 4096 bytes.".to_owned());
        }
        let chars = chars_of(reason);
        if holds_control(chars.as_slice()) {
            return Err("Enter a one-line reason without control characters.".to_owned());
        }
        let trimmed = trim_chars(chars.as_slice());
        if trimmed.len() > 0 && !self.accepts_reason() {
            return Err("This player action does not accept a reason.".to_owned());
        }
        let mut command = self.prefix().to_owned();
        let target = player_target(id);
        command.append(target.as_str());
        if trimmed.len() > 0 {
            command.push(' ');
            command.append(string_of(trimmed).as_str());
            assert(command@ =~= command_prefix(self) + target_text(id) + seq![' '] + trim(reason@));
        }
        Ok(command)
    }
}

/// The selector of exactly the player with an id.
pub fn player_target(id: u128) -> (s: String)
    ensures
        s@ == target_text(id),
{
    let mut s = "@a[nbt={UUID:[I;".to_owned();
    push_signed_decimal(&mut s, id_part(id, 0x1_0000_0000_0000_0000_0000_0000));
    s.push(',');
    push_signed_decimal(&mut s, id_part(id, 0x1_0000_0000_0000_0000));
    s.push(',');
    push_signed_decimal(&mut s, id_part(id, 0x1_0000_0000));
    s.push(',');
    push_signed_decimal(&mut s, id_part(id, 1));
    s.append("]},limit=1]");
    assert(s@ =~= target_text(id));
    s
}

/// One of the four words of an id.
fn id_part(id: u128, divisor: u128) -> (r: i64)
    requires
        divisor > 0,
    ensures
        r == id_word(id, divisor as nat),
{
    let word: u128 = (id / divisor) % 0x1_0000_0000;
    signed_32(word as u32) as i64
}

/// The first listed player with an id.
pub fn find_listed<'a>(players: &'a Vec<GuiPlayer>, id: u128) -> (r: Option<&'a GuiPlayer>)
    ensures
        (match r {
            Some(p) => Some(p@),
            None => None,
        }) == find_player(super::types::player_views(players@), id),
{
    let mut i: usize = 0;
    let ghost all = super::types::player_views(players@);
    assert(all.skip(0) =~= all);
    while i < players.len()
        invariant
            i <= players@.len(),
            all == super::types::player_views(players@),
            find_player(all.skip(i as int), id) == find_player(all, id),
        decreases players@.len() - i,
    {
        assert(all.skip(i as int)[0] == players@[i as int]@);
        assert(all.skip(i as int).drop_first() =~= all.skip(i + 1));
        if players[i].id == id {
            return Some(&players[i]);
        }
        i = i + 1;
    }
    None
}

impl GuiHandle {
    /// Queues an action for a player who is online, and returns the exact command.
    pub fn submit_player_action(
        &mut self,
        id: u128,
        action: PlayerAction,
        reason: &str,
    ) -> (r: Result<String, String>)
        requires
            old(self)@.wf(),
        ensures
            final(self)@.wf(),
            (result_text(r), final(self)@) == submitted_action(old(self)@, id, action, reason@),
    {
        let snapshot = self.snapshot(0);
        let is_op = match find_listed(&snapshot.players, id) {
            Some(player) => player.is_op,
            None => return Err("This player is no longer online.".to_owned()),
        };
        if !action.matches_operator_state(is_op) {
            return Err(
                if is_op {
                    "This player is already an operator.".to_owned()
                } else {
                    "This player is no longer an operator.".to_owned()
                },
            );
        }
        match action.command(id, reason) {
            Err(error) => Err(error),
            Ok(command) => match self.submit_command(command.as_str()) {
                Err(error) => Err(error),
                Ok(()) => Ok(command),
            },
        }
    }
}

/// A refused action queues nothing, and an accepted one queues exactly one command.
pub proof fn law_refused_actions_queue_nothing(
    m: GuiModel,
    id: u128,
    action: PlayerAction,
    reason: Seq<char>,
)
    ensures
        submitted_action(m, id, action, reason).0 is Err ==> submitted_action(
            m,
            id,
            action,
            reason,
        ).1 == m,
        submitted_action(m, id, action, reason).0 is Ok ==> submitted_action(
            m,
            id,
            action,
            reason,
        ).1.commands.len() == m.commands.len() + 1,
{
}

/// The player of an id is the first listed with it, and there is none just where nobody listed
/// has it.
pub proof fn law_players_are_found_by_id(players: Seq<PlayerView>, id: u128, k: int)
    ensures
        find_player(players, id) is Some <==> exists|i: int|
            0 <= i < players.len() && (#[trigger] players[i]).id == id,
        find_player(players, id) matches Some(p) ==> p.id == id && players.contains(p),
        0 <= k < players.len() && players[k].id == id && (forall|i: int|
            0 <= i < k ==> (#[trigger] players[i]).id != id) ==> find_player(players, id) == Some(
            players[k],
        ),
    decreases players.len(),
{
    if players.len() > 0 {
        if players[0].id != id {
            let rest = players.drop_first();
            law_players_are_found_by_id(rest, id, k - 1);
            if exists|i: int| 0 <= i < players.len() && (#[trigger] players[i]).id == id {
                let i = choose|i: int| 0 <= i < players.len() && (#[trigger] players[i]).id == id;
                assert(rest[i - 1].id == id);
            }
            if find_player(rest, id) is Some {
                let j = choose|j: int| 0 <= j < rest.len() && rest[j] == find_player(rest, id)->0;
                assert(players[j + 1] == rest[j]);
            }
            if 0 <= k < players.len() && players[k].id == id && (forall|i: int|
                0 <= i < k ==> (#[trigger] players[i]).id != id) {
                assert(rest[k - 1] == players[k]);
                assert forall|i: int| 0 <= i < k - 1 implies (#[trigger] rest[i]).id != id by {
                    assert(players[i + 1].id != id);
                }
            }
        } else {
            assert(players.contains(players[0]));
        }
    }
}

/// The four words of an id are the id: put together again, each as the bits that it stands for,
/// they give it back, so no two players have the same.
pub proof fn law_words_give_the_id_back(id: u128)
    ensures
        ({
            let a = id_word(id, 0x1_0000_0000_0000_0000_0000_0000) % 0x1_0000_0000;
            let b = id_word(id, 0x1_0000_0000_0000_0000) % 0x1_0000_0000;
            let c = id_word(id, 0x1_0000_0000) % 0x1_0000_0000;
            let d = id_word(id, 1) % 0x1_0000_0000;
            a * 0x1_0000_0000_0000_0000_0000_0000 + b * 0x1_0000_0000_0000_0000 + c * 0x1_0000_0000
                + d == id
        }),
        i32::MIN <= id_word(id, 1) <= i32::MAX,
        i32::MIN <= id_word(id, 0x1_0000_0000) <= i32::MAX,
        target_text(id) == "@a[nbt={UUID:[I;"@ + signed_decimal(
            id_word(id, 0x1_0000_0000_0000_0000_0000_0000),
        ) + ","@ + signed_decimal(id_word(id, 0x1_0000_0000_0000_0000)) + ","@ + signed_decimal(
            id_word(id, 0x1_0000_0000),
        ) + ","@ + signed_decimal(id_word(id, 1)) + "]},limit=1]"@,
{
    lemma_words(id as nat);
    lemma_target_text(id);
}

proof fn lemma_target_text(id: u128)
    ensures
        target_text(id) == "@a[nbt={UUID:[I;"@ + signed_decimal(
            id_word(id, 0x1_0000_0000_0000_0000_0000_0000),
        ) + ","@ + signed_decimal(id_word(id, 0x1_0000_0000_0000_0000)) + ","@ + signed_decimal(
            id_word(id, 0x1_0000_0000),
        ) + ","@ + signed_decimal(id_word(id, 1)) + "]},limit=1]"@,
{
    reveal_strlit(",");
    assert(","@ =~= seq![',']);
}

proof fn lemma_words(n: nat)
    requires
        n <= u128::MAX,
    ensures
        ({
            let a = n / 0x1_0000_0000_0000_0000_0000_0000;
            let b = n / 0x1_0000_0000_0000_0000 % 0x1_0000_0000;
            let c = n / 0x1_0000_0000 % 0x1_0000_0000;
            let d = n % 0x1_0000_0000;
            &&& a < 0x1_0000_0000
            &&& a * 0x1_0000_0000_0000_0000_0000_0000 + b * 0x1_0000_0000_0000_0000 + c
                * 0x1_0000_0000 + d == n
        }),
{
    let q1 = n / 0x1_0000_0000;
    let q2 = q1 / 0x1_0000_0000;
    let q3 = q2 / 0x1_0000_0000;
    assert(n / 0x1_0000_0000_0000_0000 == q2);
    assert(n / 0x1_0000_0000_0000_0000_0000_0000 == q3);
}

/// Each action runs the command of its own name.
pub proof fn law_actions_run_their_commands()
    ensures
        command_prefix(PlayerAction::Kick) == "kick "@,
        command_prefix(PlayerAction::Ban) == "ban "@,
        command_prefix(PlayerAction::Op) == "op "@,
        command_prefix(PlayerAction::Deop) == "deop "@,
        command_prefix(PlayerAction::WhitelistAdd) == "whitelist add "@,
        command_prefix(PlayerAction::WhitelistRemove) == "whitelist remove "@,
        command_prefix(PlayerAction::Survival) == "gamemode survival "@,
        command_prefix(PlayerAction::Creative) == "gamemode creative "@,
        command_prefix(PlayerAction::Adventure) == "gamemode adventure "@,
        command_prefix(PlayerAction::Spectator) == "gamemode spectator "@,
        command_prefix(PlayerAction::Kill) == "kill "@,
        command_prefix(PlayerAction::ClearInventory) == "clear "@,
{
}

/// An action's command names its player, and its reason behind that where it has one; a reason
/// is one line, not too long, and only for a kick or a ban.
pub proof fn law_commands_name_their_player(action: PlayerAction, id: u128, reason: Seq<char>)
    ensures
        action_command(action, id, reason) is Ok <==> utf8_len(reason) <= 4096 && !has_control(
            reason,
        ) && (trim(reason).len() == 0 || action == PlayerAction::Kick || action
            == PlayerAction::Ban),
        action_command(action, id, reason) matches Ok(command) ==> {
            &&& trim(reason).len() == 0 ==> command == command_prefix(action) + target_text(id)
            &&& trim(reason).len() > 0 ==> command == command_prefix(action) + target_text(id)
                + " "@ + trim(reason)
        },
{
    reveal_strlit(" ");
    assert(" "@ =~= seq![' ']);
}

/// An action is queued just where its player is online and is an operator or not as it needs,
/// it has a command, and commands are admitted.
pub proof fn law_actions_are_for_players_online(
    m: GuiModel,
    id: u128,
    action: PlayerAction,
    reason: Seq<char>,
)
    ensures
        ({
            let player = find_player(m.snapshot.players, id);
            let command = action_command(action, id, reason);
            let (result, after) = submitted_action(m, id, action, reason);
            &&& result is Ok <==> {
                &&& player is Some
                &&& action == PlayerAction::Op ==> !(player->0).is_op
                &&& action == PlayerAction::Deop ==> (player->0).is_op
                &&& command is Ok
                &&& command_error(m, command->Ok_0) is None
            }
            &&& result is Ok ==> result == command && after == with_command(m, command->Ok_0)
            &&& result is Err ==> after == m
        }),
{
}

} // verus!

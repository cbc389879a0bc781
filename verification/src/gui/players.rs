//! The player list: which row is selected, and which action waits for a confirmation.

use super::player_actions::{
    find_listed, find_player, label_text, result_text, submitted_action, takes_reason,
    PlayerAction,
};
use super::state::{GuiHandle, GuiModel};
use super::types::{option_text, GuiPlayer, PlayerView, ServerStatus};
use vstd::prelude::*;

verus! {

/// An action that was chosen for a player.
pub struct PendingPlayerAction {
    pub player: GuiPlayer,
    pub action: PlayerAction,
    pub reason: String,
    pub error: Option<String>,
}

pub struct PendingView {
    pub player: PlayerView,
    pub action: PlayerAction,
    pub reason: Seq<char>,
    pub error: Option<Seq<char>>,
}

impl View for PendingPlayerAction {
    type V = PendingView;

    open spec fn view(&self) -> PendingView {
        PendingView {
            player: self.player@,
            action: self.action,
            reason: self.reason@,
            error: option_text(self.error),
        }
    }
}

/// The controls of the player list.
pub struct PlayerControls {
    pub selected: Option<u128>,
    pub pending: Option<PendingPlayerAction>,
}

pub struct ControlsView {
    pub selected: Option<u128>,
    pub pending: Option<PendingView>,
}

impl View for PlayerControls {
    type V = ControlsView;

    open spec fn view(&self) -> ControlsView {
        ControlsView {
            selected: self.selected,
            pending: match self.pending {
                Some(p) => Some(p@),
                None => None,
            },
        }
    }
}

/// What the user did in the confirmation dialog.
pub struct DialogInput {
    pub confirm: bool,
    pub cancel: bool,
}

/// Whether the server takes player actions at all.
pub open spec fn actions_live(m: GuiModel) -> bool {
    m.snapshot.status == ServerStatus::Running && !m.close_requested
}

/// The selection that survives a look at the state: a selected player stays so while
/// they are online and the server runs.
pub open spec fn kept_selection(selected: Option<u128>, m: GuiModel) -> Option<u128> {
    match selected {
        Some(id) => if actions_live(m) && find_player(m.snapshot.players, id) is Some {
            Some(id)
        } else {
            None
        },
        None => None,
    }
}

/// Whether a confirmation survives a look at the state: it is not carried into a later
/// login or another run of the server.
pub open spec fn confirmation_live(p: PendingView, m: GuiModel) -> bool {
    actions_live(m) && find_player(m.snapshot.players, p.player.id) is Some
}

/// What one frame makes of the controls and the state, and what it reports.
pub open spec fn processed(
    c: ControlsView,
    m: GuiModel,
    input: DialogInput,
) -> (ControlsView, GuiModel, Option<Result<Seq<char>, Seq<char>>>) {
    let selected = kept_selection(c.selected, m);
    match c.pending {
        None => (ControlsView { selected, pending: None }, m, None),
        Some(p) => if !takes_reason(p.action) {
            let (r, m2) = submitted_action(m, p.player.id, p.action, Seq::empty());
            (ControlsView { selected, pending: None }, m2, Some(r))
        } else if !confirmation_live(p, m) {
            (ControlsView { selected, pending: None }, m, None)
        } else if input.confirm && m.snapshot.commands_enabled {
            let (r, m2) = submitted_action(m, p.player.id, p.action, p.reason);
            match r {
                Ok(command) => (ControlsView { selected, pending: None }, m2, Some(Ok(command))),
                Err(e) => (
                    ControlsView {
                        selected,
                        pending: if input.cancel {
                            None
                        } else {
                            Some(PendingView { error: Some(e), ..p })
                        },
                    },
                    m2,
                    None,
                ),
            }
        } else {
            (
                ControlsView {
                    selected,
                    pending: if input.cancel {
                        None
                    } else {
                        Some(p)
                    },
                },
                m,
                None,
            )
        },
    }
}

/// An optional result with its texts.
pub open spec fn report_text(r: Option<Result<String, String>>) -> Option<
    Result<Seq<char>, Seq<char>>,
> {
    match r {
        Some(r) => Some(result_text(r)),
        None => None,
    }
}

impl Default for PlayerControls {
    fn default() -> (r: Self)
        ensures
            r@ == (ControlsView { selected: None, pending: None }),
    {
        PlayerControls { selected: None, pending: None }
    }
}

impl PlayerControls {
    /// Selects a player's row.
    pub fn select(&mut self, id: u128)
        ensures
            final(self)@ == (ControlsView { selected: Some(id), ..old(self)@ }),
    {
        self.selected = Some(id);
    }

    /// Chooses an action for a player.
    pub fn choose_action(&mut self, player: &GuiPlayer, action: PlayerAction)
        ensures
            final(self)@ == (ControlsView {
                pending: Some(
                    PendingView { player: player@, action, reason: Seq::empty(), error: None },
                ),
                ..old(self)@
            }),
    {
        self.pending = Some(
            PendingPlayerAction {
                player: player.clone(),
                action,
                reason: String::new(),
                error: None,
            },
        );
    }

    /// The reason why the open dialog cannot be confirmed now, if there is one.
    pub fn unavailable(handle: &GuiHandle) -> (r: Option<&'static str>)
        ensures
            r is Some == !handle@.snapshot.commands_enabled,
            r matches Some(s) ==> s@ == "The server console is disabled in configuration."@,
    {
        let snapshot = handle.snapshot(0);
        if snapshot.commands_enabled {
            None
        } else {
            Some("The server console is disabled in configuration.")
        }
    }

    /// Drops a selection whose player is gone.
    fn refresh_selection(&mut self, handle: &GuiHandle)
        ensures
            final(self)@ == (ControlsView {
                selected: kept_selection(old(self)@.selected, handle@),
                ..old(self)@
            }),
    {
        if let Some(id) = self.selected {
            let snapshot = handle.snapshot(0);
            if snapshot.status != ServerStatus::Running || handle.close_requested() || find_listed(
                &snapshot.players,
                id,
            ).is_none() {
                self.selected = None;
            }
        }
    }

    /// Runs an immediate action once, or a confirmed one. Queued commands and refused
    /// immediate actions are reported; a refused confirmation stays open with its error.
    pub fn process_actions(&mut self, handle: &mut GuiHandle, input: DialogInput) -> (r: Option<
        Result<String, String>,
    >)
        requires
            old(handle)@.wf(),
        ensures
            final(handle)@.wf(),
            (final(self)@, final(handle)@, report_text(r)) == processed(
                old(self)@,
                old(handle)@,
                input,
            ),
    {
        self.refresh_selection(handle);
        let pending = match self.pending.take() {
            Some(pending) => pending,
            None => return None,
        };
        let id: u128 = pending.player.id;
        if !pending.action.accepts_reason() {
            proof {
                reveal_strlit("");
                assert(""@ =~= Seq::<char>::empty());
            }
            return Some(handle.submit_player_action(id, pending.action, ""));
        }
        let snapshot = handle.snapshot(0);
        if snapshot.status != ServerStatus::Running || handle.close_requested() || find_listed(
            &snapshot.players,
            id,
        ).is_none() {
            return None;
        }
        if input.confirm && snapshot.commands_enabled {
            match handle.submit_player_action(id, pending.action, pending.reason.as_str()) {
                Ok(command) => return Some(Ok(command)),
                Err(error) => {
                    if !input.cancel {
                        self.pending = Some(
                            PendingPlayerAction {
                                player: pending.player,
                                action: pending.action,
                                reason: pending.reason,
                                error: Some(error),
                            },
                        );
                    }
                },
            }
        } else if !input.cancel {
            self.pending = Some(pending);
        }
        None
    }
}

/// Whether the actions of a player's menu can be chosen.
pub fn menu_enabled(status: ServerStatus, commands_enabled: bool, closing: bool) -> (r: bool)
    ensures
        r == (status == ServerStatus::Running && commands_enabled && !closing),
{
    status == ServerStatus::Running && commands_enabled && !closing
}

/// The operator action that a player's menu offers.
pub fn operator_action(is_op: bool) -> (r: PlayerAction)
    ensures
        r == (if is_op {
            PlayerAction::Deop
        } else {
            PlayerAction::Op
        }),
        super::player_actions::fits_operator(r, is_op),
{
    if is_op {
        PlayerAction::Deop
    } else {
        PlayerAction::Op
    }
}

/// The menu entry of an action: those that open a dialog end in an ellipsis.
pub fn menu_label(action: PlayerAction) -> (s: String)
    ensures
        s@ == (if takes_reason(action) {
            label_text(action) + "..."@
        } else {
            label_text(action)
        }),
{
    let mut s = action.label().to_owned();
    if action.accepts_reason() {
        s.append("...");
    }
    s
}

/// A confirmation never outlives the player's session: once the player is offline, or
/// the server does not run, or the window closes, the next frame drops it and queues
/// nothing, whatever the user does in the dialog.
pub proof fn law_stale_confirmations_are_dropped(c: ControlsView, m: GuiModel, input: DialogInput)
    requires
        c.pending is Some,
        takes_reason(c.pending->0.action),
        !confirmation_live(c.pending->0, m),
    ensures
        processed(c, m, input).0.pending is None,
        processed(c, m, input).1 == m,
        processed(c, m, input).2 is None,
{
}

/// An immediate action is tried exactly once: whatever comes of it, nothing is pending
/// afterwards and a further frame changes nothing.
pub proof fn law_immediate_actions_run_once(c: ControlsView, m: GuiModel, input: DialogInput, later: DialogInput)
    requires
        c.pending is Some,
        !takes_reason(c.pending->0.action),
    ensures
        ({
            let (c2, m2, r) = processed(c, m, input);
            &&& r is Some
            &&& c2.pending is None
            &&& processed(c2, m2, later).1 == m2
            &&& processed(c2, m2, later).2 is None
        }),
{
}

/// A dialog that is neither confirmed nor cancelled stays as it is.
pub proof fn law_idle_dialogs_stay(c: ControlsView, m: GuiModel)
    requires
        c.pending is Some,
        takes_reason(c.pending->0.action),
        confirmation_live(c.pending->0, m),
    ensures
        processed(c, m, DialogInput { confirm: false, cancel: false }).0.pending == c.pending,
        processed(c, m, DialogInput { confirm: false, cancel: false }).1 == m,
{
}

/// A selection stays just where the server runs, the window stays and the player is online.
pub proof fn law_selections_stay_with_their_player(c: ControlsView, m: GuiModel, input: DialogInput)
    ensures
        ({
            let after = processed(c, m, input).0.selected;
            let live = m.snapshot.status == ServerStatus::Running && !m.close_requested;
            &&& after is Some <==> live && c.selected is Some && find_player(
                m.snapshot.players,
                c.selected->0,
            ) is Some
            &&& after is Some ==> after == c.selected
        }),
{
}

/// A dialog that is confirmed runs its action with its reason: it is gone where the command was
/// queued, and stays with the error where it was not. A cancelled dialog is gone and runs
/// nothing.
pub proof fn law_confirmed_dialogs_run_their_action(c: ControlsView, m: GuiModel)
    requires
        c.pending is Some,
        c.pending->0.action == PlayerAction::Kick || c.pending->0.action == PlayerAction::Ban,
        m.snapshot.status == ServerStatus::Running,
        !m.close_requested,
        find_player(m.snapshot.players, c.pending->0.player.id) is Some,
    ensures
        ({
            let p = c.pending->0;
            let (confirmed, after, report) = processed(
                c,
                m,
                DialogInput { confirm: true, cancel: false },
            );
            let (result, queued) = submitted_action(m, p.player.id, p.action, p.reason);
            &&& m.snapshot.commands_enabled && result is Ok ==> confirmed.pending is None && after
                == queued && report == Some(result)
            &&& m.snapshot.commands_enabled && result is Err ==> report is None && after == m
                && confirmed.pending == Some(PendingView { error: Some(result->Err_0), ..p })
            &&& !m.snapshot.commands_enabled ==> confirmed.pending == c.pending && after == m
                && report is None
        }),
        ({
            let (cancelled, after, report) = processed(
                c,
                m,
                DialogInput { confirm: false, cancel: true },
            );
            cancelled.pending is None && after == m && report is None
        }),
{
}

/// An action without a dialog is run as it is, and what came of it is reported.
pub proof fn law_immediate_actions_are_reported(c: ControlsView, m: GuiModel, input: DialogInput)
    requires
        c.pending is Some,
        c.pending->0.action != PlayerAction::Kick,
        c.pending->0.action != PlayerAction::Ban,
    ensures
        ({
            let p = c.pending->0;
            let (after, state, report) = processed(c, m, input);
            let (result, queued) = submitted_action(m, p.player.id, p.action, Seq::empty());
            after.pending is None && state == queued && report == Some(result)
        }),
{
}

/// A dialog does not outlive its occasion: where the server does not run, the window closes or
/// the player left, it is gone, and nothing was queued or reported.
pub proof fn law_dialogs_end_with_their_occasion(c: ControlsView, m: GuiModel, input: DialogInput)
    requires
        c.pending is Some,
        c.pending->0.action == PlayerAction::Kick || c.pending->0.action == PlayerAction::Ban,
        m.snapshot.status != ServerStatus::Running || m.close_requested || find_player(
            m.snapshot.players,
            c.pending->0.player.id,
        ) is None,
    ensures
        processed(c, m, input).0.pending is None,
        processed(c, m, input).1 == m,
        processed(c, m, input).2 is None,
{
}

} // verus!

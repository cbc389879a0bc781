use pumpkin::gui::player_actions::{player_target, PlayerAction};
use pumpkin::gui::players::{
    menu_enabled, menu_label, operator_action, DialogInput, PendingPlayerAction, PlayerControls,
};
use pumpkin::gui::state::{GuiHandle, MAX_COMMANDS, MAX_COMMAND_BYTES};
use pumpkin::gui::types::{GuiPlayer, ServerStatus};

const TARGET: &str = "@a[nbt={UUID:[I;0,0,0,1]},limit=1]";

const ACTIONS: [(PlayerAction, &str); 12] = [
    (PlayerAction::Kick, "kick"),
    (PlayerAction::Ban, "ban"),
    (PlayerAction::Op, "op"),
    (PlayerAction::Deop, "deop"),
    (PlayerAction::WhitelistAdd, "whitelist add"),
    (PlayerAction::WhitelistRemove, "whitelist remove"),
    (PlayerAction::Survival, "gamemode survival"),
    (PlayerAction::Creative, "gamemode creative"),
    (PlayerAction::Adventure, "gamemode adventure"),
    (PlayerAction::Spectator, "gamemode spectator"),
    (PlayerAction::Kill, "kill"),
    (PlayerAction::ClearInventory, "clear"),
];

fn player(id: u128, name: &str, is_op: bool) -> GuiPlayer {
    GuiPlayer {
        id,
        name: name.to_owned(),
        edition: "Java".to_owned(),
        is_op,
    }
}

fn show(handle: &mut GuiHandle, status: ServerStatus, commands: bool, players: Vec<GuiPlayer>) {
    let mut update = handle.snapshot(0);
    update.status = status;
    update.commands_enabled = commands;
    update.players = players;
    handle.apply_backend_update(update, Vec::new());
}

fn running_player(id: u128, name: &str) -> GuiHandle {
    let mut handle = GuiHandle::new_managed();
    assert!(handle.take_command_receiver());
    show(
        &mut handle,
        ServerStatus::Running,
        true,
        vec![player(id, name, false)],
    );
    handle
}

#[test]
fn targets_name_exactly_one_player() {
    assert_eq!(
        player_target(0x01234567_89ab_cdef_8000_0000ffffffff),
        "@a[nbt={UUID:[I;19088743,-1985229329,-2147483648,-1]},limit=1]",
    );
    assert_eq!(player_target(0), "@a[nbt={UUID:[I;0,0,0,0]},limit=1]");
    assert_eq!(
        player_target(u128::MAX),
        "@a[nbt={UUID:[I;-1,-1,-1,-1]},limit=1]"
    );
}

#[test]
fn every_action_queues_one_fixed_command_independent_of_display_name() {
    let id = 7;
    for name in [
        "JavaPlayer",
        "Bedrock Player With Spaces",
        "\"],limit=99] run op @a\nstop",
    ] {
        let mut handle = running_player(id, name);
        for (action, prefix) in ACTIONS {
            show(
                &mut handle,
                ServerStatus::Running,
                true,
                vec![player(id, name, action == PlayerAction::Deop)],
            );
            let expected = format!("{prefix} {}", player_target(id));
            let queued = handle.submit_player_action(id, action, "").unwrap();
            assert_eq!(queued, expected);
            assert_eq!(handle.try_recv().unwrap(), queued);
            assert!(handle.try_recv().is_none());
            assert!(!action.label().is_empty());
            assert!(!action.description().is_empty());
            assert_eq!(
                action.accepts_reason(),
                matches!(action, PlayerAction::Kick | PlayerAction::Ban)
            );
        }
    }
}

#[test]
fn operator_actions_follow_current_uuid_state_without_queuing_stale_choices() {
    for (action, _) in ACTIONS {
        assert_eq!(
            action.matches_operator_state(false),
            action != PlayerAction::Deop
        );
        assert_eq!(
            action.matches_operator_state(true),
            action != PlayerAction::Op
        );
    }

    let id = 7;
    let mut handle = running_player(id, "Same Name");
    let listed = |is_op| vec![player(8, "Same Name", true), player(id, "Same Name", is_op)];
    show(&mut handle, ServerStatus::Running, true, listed(false));
    assert!(handle
        .submit_player_action(id, PlayerAction::Deop, "")
        .is_err());
    assert!(handle.try_recv().is_none());
    let command = handle
        .submit_player_action(id, PlayerAction::Op, "")
        .unwrap();
    assert_eq!(command, format!("op {}", player_target(id)));
    assert_eq!(handle.try_recv().unwrap(), command);

    show(&mut handle, ServerStatus::Running, true, listed(true));
    assert_eq!(
        handle
            .submit_player_action(id, PlayerAction::Op, "")
            .unwrap_err(),
        "This player is already an operator."
    );
    assert!(handle.try_recv().is_none());
    let command = handle
        .submit_player_action(id, PlayerAction::Deop, "")
        .unwrap();
    assert_eq!(command, format!("deop {}", player_target(id)));
    assert_eq!(handle.try_recv().unwrap(), command);

    show(&mut handle, ServerStatus::Running, true, listed(false));
    assert_eq!(
        handle
            .submit_player_action(id, PlayerAction::Deop, "")
            .unwrap_err(),
        "This player is no longer an operator."
    );
    assert!(handle.try_recv().is_none());
    let command = handle
        .submit_player_action(id, PlayerAction::Kick, "")
        .unwrap();
    assert_eq!(handle.try_recv().unwrap(), command);
    assert!(handle.try_recv().is_none());
}

#[test]
fn reasons_are_optional_single_line_and_do_not_change_the_target() {
    let id = 7;
    let mut handle = running_player(id, "Player");
    for action in [PlayerAction::Kick, PlayerAction::Ban] {
        let queued = handle
            .submit_player_action(id, action, "  Please stop; @a is just reason text  ")
            .unwrap();
        assert_eq!(
            queued,
            format!(
                "{} {} Please stop; @a is just reason text",
                action.label().to_lowercase(),
                player_target(id)
            )
        );
        assert_eq!(handle.try_recv().unwrap(), queued);
        for reason in ["\n", "reason\r", "reason\0", "reason\nstop", "reason\x1b"] {
            assert!(handle.submit_player_action(id, action, reason).is_err());
        }
        assert!(handle
            .submit_player_action(id, action, &"x".repeat(MAX_COMMAND_BYTES + 1))
            .is_err());
        assert!(handle
            .submit_player_action(id, action, &"x".repeat(MAX_COMMAND_BYTES))
            .is_err());
    }
    assert!(handle
        .submit_player_action(id, PlayerAction::Op, "not supported")
        .is_err());
    assert!(handle.try_recv().is_none());
}

#[test]
fn player_actions_obey_online_state_console_setting_and_queue_bounds() {
    let id = 7;
    let mut handle = running_player(id, "Player");
    assert!(handle
        .submit_player_action(8, PlayerAction::Kick, "")
        .is_err());
    show(
        &mut handle,
        ServerStatus::Running,
        false,
        vec![player(id, "Player", false)],
    );
    assert!(handle
        .submit_player_action(id, PlayerAction::Kick, "")
        .is_err());
    for status in [
        ServerStatus::Starting,
        ServerStatus::Stopping,
        ServerStatus::Stopped,
        ServerStatus::Failed,
    ] {
        let mut other = running_player(id, "Player");
        match status {
            ServerStatus::Stopped => other.finish(None, 0),
            ServerStatus::Failed => other.finish(Some("failed".to_owned()), 0),
            _ => show(&mut other, status, true, vec![player(id, "Player", false)]),
        }
        assert_eq!(other.snapshot(0).status, status);
        assert!(other
            .submit_player_action(id, PlayerAction::Kick, "")
            .is_err());
        assert!(other.try_recv().is_none());
    }
    assert!(handle.try_recv().is_none());
    show(
        &mut handle,
        ServerStatus::Running,
        true,
        vec![player(id, "Player", false)],
    );
    for _ in 0..MAX_COMMANDS {
        handle
            .submit_player_action(id, PlayerAction::Survival, "")
            .unwrap();
    }
    assert!(handle
        .submit_player_action(id, PlayerAction::Survival, "")
        .is_err());
    for _ in 0..MAX_COMMANDS {
        handle.try_recv().unwrap();
    }
    assert!(handle.try_recv().is_none());
    show(&mut handle, ServerStatus::Running, true, Vec::new());
    assert!(handle
        .submit_player_action(id, PlayerAction::Ban, "")
        .is_err());
    let mut disconnected = running_player(id, "Player");
    disconnected.close_commands();
    assert!(disconnected
        .submit_player_action(id, PlayerAction::Kick, "")
        .is_err());
}

/// The window's player list, with one player in it.
struct PlayerUi {
    handle: GuiHandle,
    controls: PlayerControls,
    player: GuiPlayer,
    submitted: Vec<String>,
    errors: Vec<String>,
}

impl PlayerUi {
    fn new() -> Self {
        let mut handle = GuiHandle::new_managed();
        assert!(handle.take_command_receiver());
        let mut ui = PlayerUi {
            handle,
            controls: PlayerControls::default(),
            player: player(1, "Alex", false),
            submitted: Vec::new(),
            errors: Vec::new(),
        };
        ui.update_server(ServerStatus::Running, true);
        ui
    }

    fn update_server(&mut self, status: ServerStatus, commands: bool) {
        show(
            &mut self.handle,
            status,
            commands,
            vec![self.player.clone()],
        );
    }

    fn set_operator(&mut self, is_op: bool) {
        self.player.is_op = is_op;
        self.update_server(ServerStatus::Running, true);
    }

    fn frame(&mut self, confirm: bool, cancel: bool) {
        let report = self
            .controls
            .process_actions(&mut self.handle, DialogInput { confirm, cancel });
        match report {
            Some(Ok(command)) => self.submitted.push(command),
            Some(Err(error)) => self.errors.push(error),
            None => {}
        }
    }

    fn settle(&mut self) {
        for _ in 0..3 {
            self.frame(false, false);
        }
    }

    fn menu_is_enabled(&self) -> bool {
        let snapshot = self.handle.snapshot(0);
        menu_enabled(
            snapshot.status,
            snapshot.commands_enabled,
            self.handle.close_requested(),
        )
    }

    fn select_action(&mut self, action: PlayerAction) {
        let player = self.player.clone();
        self.controls.select(player.id);
        if self.menu_is_enabled() {
            self.controls.choose_action(&player, action);
        }
        self.settle();
    }

    fn open_confirmation(&mut self, action: PlayerAction) {
        assert!(action.accepts_reason());
        self.select_action(action);
        let pending = self.controls.pending.as_ref().expect("confirmation opened");
        assert_eq!(pending.action, action);
        assert_eq!(pending.player.id, self.player.id);
        self.assert_no_submission();
    }

    fn assert_no_submission(&mut self) {
        assert!(self.submitted.is_empty());
        assert!(self.handle.try_recv().is_none());
    }
}

#[test]
fn non_reason_actions_queue_exactly_once_without_confirmation() {
    for (action, prefix) in [
        (PlayerAction::Op, "op"),
        (PlayerAction::Deop, "deop"),
        (PlayerAction::Survival, "gamemode survival"),
        (PlayerAction::Creative, "gamemode creative"),
        (PlayerAction::Adventure, "gamemode adventure"),
        (PlayerAction::Spectator, "gamemode spectator"),
        (PlayerAction::WhitelistAdd, "whitelist add"),
        (PlayerAction::WhitelistRemove, "whitelist remove"),
        (PlayerAction::Kill, "kill"),
        (PlayerAction::ClearInventory, "clear"),
    ] {
        let mut ui = PlayerUi::new();
        if action == PlayerAction::Deop {
            ui.set_operator(true);
        }
        ui.select_action(action);
        let expected = format!("{prefix} {TARGET}");
        assert_eq!(ui.submitted, vec![expected.clone()]);
        assert_eq!(ui.handle.try_recv().unwrap(), expected);
        assert!(ui.handle.try_recv().is_none());
        assert!(ui.controls.pending.is_none());
        assert!(ui.errors.is_empty());
    }
}

#[test]
fn kick_and_ban_confirm_with_or_without_an_optional_reason() {
    for action in [PlayerAction::Kick, PlayerAction::Ban] {
        for reason in ["", "  Please follow the rules  "] {
            let mut ui = PlayerUi::new();
            ui.open_confirmation(action);
            ui.controls.pending.as_mut().unwrap().reason = reason.to_owned();
            ui.settle();
            ui.assert_no_submission();
            ui.frame(true, false);
            ui.settle();
            let prefix = if action == PlayerAction::Kick {
                "kick"
            } else {
                "ban"
            };
            let expected = format!("{prefix} {TARGET} {}", reason.trim())
                .trim_end()
                .to_owned();
            assert_eq!(ui.submitted, vec![expected.clone()]);
            assert_eq!(ui.handle.try_recv().unwrap(), expected);
            assert!(ui.handle.try_recv().is_none());
            assert!(ui.controls.pending.is_none());
            assert!(ui.errors.is_empty());
        }
    }
}

#[test]
fn cancel_and_escape_dismiss_confirmation_without_queueing() {
    let mut ui = PlayerUi::new();
    ui.open_confirmation(PlayerAction::Kick);
    ui.frame(false, true);
    ui.settle();
    assert!(ui.controls.pending.is_none());
    ui.assert_no_submission();
}

#[test]
fn disabled_player_actions_cannot_open_a_confirmation() {
    for status in [
        ServerStatus::Starting,
        ServerStatus::Running,
        ServerStatus::Stopping,
        ServerStatus::Stopped,
        ServerStatus::Failed,
    ] {
        let mut ui = PlayerUi::new();
        match status {
            ServerStatus::Stopped => ui.handle.finish(None, 0),
            ServerStatus::Failed => ui.handle.finish(Some("startup failed".to_owned()), 0),
            _ => ui.update_server(status, false),
        }
        ui.select_action(PlayerAction::Op);
        assert!(ui.controls.pending.is_none());
        assert!(ui.errors.is_empty());
        ui.assert_no_submission();
    }
}

#[test]
fn disabling_console_rechecks_an_already_open_confirmation() {
    let mut ui = PlayerUi::new();
    ui.open_confirmation(PlayerAction::Kick);
    assert_eq!(PlayerControls::unavailable(&ui.handle), None);
    ui.update_server(ServerStatus::Running, false);
    ui.settle();
    assert_eq!(
        PlayerControls::unavailable(&ui.handle),
        Some("The server console is disabled in configuration.")
    );
    ui.frame(true, false);
    ui.settle();
    assert!(ui.controls.pending.is_some());
    ui.assert_no_submission();
}

#[test]
fn stopping_invalidates_confirmation_and_restart_cannot_revive_it() {
    let mut ui = PlayerUi::new();
    ui.open_confirmation(PlayerAction::Ban);
    ui.handle.request_stop();
    ui.settle();
    assert!(ui.controls.pending.is_none());
    assert!(ui.controls.selected.is_none());
    ui.handle.finish(None, 0);
    ui.handle.request_start().unwrap();
    ui.update_server(ServerStatus::Running, true);
    ui.settle();
    assert!(ui.controls.pending.is_none());
    assert!(ui.controls.selected.is_none());
    ui.assert_no_submission();
}

#[test]
fn another_player_with_the_same_name_cannot_inherit_confirmation() {
    let mut ui = PlayerUi::new();
    ui.open_confirmation(PlayerAction::Ban);
    let mut snapshot = ui.handle.snapshot(0);
    snapshot.players[0].id = 2;
    ui.handle.apply_backend_update(snapshot, Vec::new());
    ui.settle();
    assert!(ui.controls.pending.is_none());
    ui.update_server(ServerStatus::Running, true);
    ui.settle();
    assert!(ui.controls.pending.is_none());
    ui.assert_no_submission();
}

#[test]
fn full_command_queue_preserves_confirmation_and_allows_retry() {
    let mut ui = PlayerUi::new();
    ui.open_confirmation(PlayerAction::Kick);
    for _ in 0..MAX_COMMANDS {
        ui.handle.submit_command("list").unwrap();
    }
    ui.frame(true, false);
    ui.settle();
    let pending = ui
        .controls
        .pending
        .as_ref()
        .expect("failed action remains open");
    assert!(pending.error.as_deref().unwrap().contains("queue is full"));
    assert!(ui.submitted.is_empty());
    for _ in 0..MAX_COMMANDS {
        assert_eq!(ui.handle.try_recv().unwrap(), "list");
    }
    ui.frame(true, false);
    ui.settle();
    let expected = format!("kick {TARGET}");
    assert_eq!(ui.submitted, vec![expected.clone()]);
    assert_eq!(ui.handle.try_recv().unwrap(), expected);
    assert!(ui.handle.try_recv().is_none());
    assert!(ui.controls.pending.is_none());
}

#[test]
fn a_closed_command_queue_reports_failure_without_dismissing_confirmation() {
    let mut ui = PlayerUi::new();
    ui.open_confirmation(PlayerAction::Ban);
    ui.handle.close_commands();
    ui.frame(true, false);
    ui.settle();
    let pending = ui
        .controls
        .pending
        .as_ref()
        .expect("failed action remains open");
    assert!(pending
        .error
        .as_deref()
        .unwrap()
        .contains("no longer accepting"));
    assert!(ui.submitted.is_empty());
    assert!(ui.handle.try_recv().is_none());
}

#[test]
fn a_failed_confirmation_can_be_cancelled_in_the_same_frame() {
    let mut ui = PlayerUi::new();
    ui.open_confirmation(PlayerAction::Ban);
    ui.handle.close_commands();
    ui.frame(true, true);
    assert!(ui.controls.pending.is_none());
    ui.assert_no_submission();
}

#[test]
fn an_open_menu_tracks_the_latest_operator_state() {
    let mut ui = PlayerUi::new();
    ui.controls.select(1);
    assert_eq!(menu_label(operator_action(ui.player.is_op)), "Op");
    for is_op in [true, false] {
        ui.set_operator(is_op);
        ui.settle();
        let label = menu_label(operator_action(ui.handle.snapshot(0).players[0].is_op));
        assert_eq!(label == "Op", !is_op);
        assert_eq!(label == "Deop", is_op);
        assert_eq!(ui.controls.selected, Some(1));
    }
    assert_eq!(menu_label(PlayerAction::Kick), "Kick...");
    assert_eq!(menu_label(PlayerAction::Ban), "Ban...");
    ui.assert_no_submission();
}

#[test]
fn operator_state_changes_reject_an_immediate_action_without_reversing_or_retrying_it() {
    for (action, initially_op) in [(PlayerAction::Op, false), (PlayerAction::Deop, true)] {
        let mut ui = PlayerUi::new();
        ui.set_operator(initially_op);
        ui.controls.pending = Some(PendingPlayerAction {
            player: ui.player.clone(),
            action,
            reason: String::new(),
            error: None,
        });
        ui.set_operator(!initially_op);
        ui.settle();
        let expected_error = if initially_op {
            "This player is no longer an operator."
        } else {
            "This player is already an operator."
        };
        assert_eq!(ui.errors, vec![expected_error]);
        assert!(ui.controls.pending.is_none());
        ui.set_operator(initially_op);
        ui.settle();
        assert_eq!(ui.errors.len(), 1);
        ui.assert_no_submission();
    }
}

#[test]
fn immediate_queue_errors_are_returned_once_without_a_modal_or_automatic_retry() {
    for closed in [false, true] {
        let mut ui = PlayerUi::new();
        if closed {
            ui.handle.close_commands();
        } else {
            for _ in 0..MAX_COMMANDS {
                ui.handle.submit_command("list").unwrap();
            }
        }
        ui.select_action(PlayerAction::Op);
        assert!(ui.controls.pending.is_none());
        assert!(ui.submitted.is_empty());
        assert_eq!(ui.errors.len(), 1);
        assert!(ui.errors[0].contains(if closed {
            "no longer accepting"
        } else {
            "queue is full"
        }));
        if !closed {
            for _ in 0..MAX_COMMANDS {
                assert_eq!(ui.handle.try_recv().unwrap(), "list");
            }
        }
        ui.settle();
        assert_eq!(ui.errors.len(), 1);
        assert!(ui.submitted.is_empty());
        assert!(ui.handle.try_recv().is_none());
    }
}

#[test]
fn a_selection_follows_its_player_and_ends_with_them() {
    let mut ui = PlayerUi::new();
    let other = player(2, "Steve", false);
    let both = vec![ui.player.clone(), other.clone()];
    show(&mut ui.handle, ServerStatus::Running, true, both);
    ui.settle();
    assert!(ui.controls.selected.is_none());
    ui.controls.select(1);
    ui.settle();
    assert_eq!(ui.controls.selected, Some(1));
    ui.controls.select(2);
    let swapped = vec![other, ui.player.clone()];
    show(&mut ui.handle, ServerStatus::Running, true, swapped);
    ui.settle();
    assert_eq!(ui.controls.selected, Some(2));
    let first = vec![ui.player.clone()];
    show(&mut ui.handle, ServerStatus::Running, true, first);
    ui.settle();
    assert!(ui.controls.selected.is_none());
    ui.assert_no_submission();
}

#[test]
fn stopping_clears_row_selection_without_an_open_confirmation() {
    let mut ui = PlayerUi::new();
    ui.controls.select(1);
    ui.settle();
    assert_eq!(ui.controls.selected, Some(ui.player.id));
    assert!(ui.controls.pending.is_none());
    ui.handle.request_stop();
    ui.settle();
    assert!(ui.controls.selected.is_none());
    ui.assert_no_submission();
}

use rustlog_bot::command::{
    check_admin, handle_command, handle_request, optout_user, update_channels, BotMessage,
    ChannelAction, ChannelStep, ChannelUpdate, CommandError, CommandPlan, OptoutTarget,
};
use std::collections::BTreeSet;

fn admins() -> Vec<String> {
    vec!["admin".to_string(), "second".to_string()]
}

fn names(logins: &[&str]) -> Vec<String> {
    logins.iter().map(|login| login.to_string()).collect()
}

fn plan(sender: &str, command: &str) -> Result<CommandPlan, CommandError> {
    handle_command(&admins(), sender, command)
}

fn error(sender: &str, command: &str) -> Option<String> {
    plan(sender, command).err().map(|error| error.message())
}

#[test]
fn admins_are_found_by_exact_login() {
    assert!(check_admin(&admins(), "admin").is_ok());
    assert!(check_admin(&admins(), "second").is_ok());
    assert_eq!(
        check_admin(&admins(), "Admin").err().map(|error| error.message()),
        Some("User Admin is not an admin".to_string())
    );
    assert!(check_admin(&Vec::new(), "admin").is_err());
}

#[test]
fn channels_are_joined_and_left_by_admins() {
    match plan("admin", " join  One\tTWO ") {
        Ok(CommandPlan::UpdateChannels { channels, action }) => {
            assert_eq!(channels, ["One", "TWO"]);
            assert_eq!(action, ChannelAction::Join);
        }
        _ => unreachable!(),
    }
    for command in ["leave one", "part one"] {
        match plan("second", command) {
            Ok(CommandPlan::UpdateChannels { channels, action }) => {
                assert_eq!(channels, ["one"]);
                assert_eq!(action, ChannelAction::Part);
            }
            _ => unreachable!(),
        }
    }
}

#[test]
fn others_are_refused() {
    for command in ["join one", "leave one", "part one", "join"] {
        assert_eq!(
            error("viewer", command),
            Some("User viewer is not an admin".to_string())
        );
    }
}

#[test]
fn channels_have_to_be_named() {
    for command in ["join", "leave ", "part"] {
        assert_eq!(error("admin", command), Some("no channels specified".to_string()));
    }
    assert!(matches!(
        update_channels(Vec::new(), ChannelAction::Join),
        Err(CommandError::NoChannels)
    ));
}

#[test]
fn optouts_need_a_code() {
    assert_eq!(error("viewer", "optout"), Some("No optout code provided".to_string()));
    match plan("viewer", "optout secret-code more") {
        Ok(CommandPlan::OptOut { code }) => assert_eq!(code, "secret-code"),
        _ => unreachable!(),
    }
}

#[test]
fn other_commands_do_nothing() {
    for command in ["", "  ", "Join one", "joinone", "help"] {
        assert!(matches!(plan("viewer", command), Ok(CommandPlan::Nothing)));
    }
}

#[test]
fn requests_need_no_admin() {
    match handle_request(BotMessage::JoinChannels(names(&["one"]))) {
        Ok(CommandPlan::UpdateChannels { channels, action }) => {
            assert_eq!(channels, ["one"]);
            assert_eq!(action, ChannelAction::Join);
        }
        _ => unreachable!(),
    }
    match handle_request(BotMessage::PartChannels(names(&["one", "two"]))) {
        Ok(CommandPlan::UpdateChannels { channels, action }) => {
            assert_eq!(channels, ["one", "two"]);
            assert_eq!(action, ChannelAction::Part);
        }
        _ => unreachable!(),
    }
    assert!(matches!(
        handle_request(BotMessage::JoinChannels(Vec::new())),
        Err(CommandError::NoChannels)
    ));
}

#[test]
fn codes_opt_out_who_gives_them() {
    match optout_user(&admins(), "admin", "200", "secret-code".to_string(), true) {
        Ok(OptoutTarget::UserId(id)) => assert_eq!(id, "200"),
        _ => unreachable!(),
    }
    match optout_user(&admins(), "viewer", "300", "secret-code".to_string(), true) {
        Ok(OptoutTarget::UserId(id)) => assert_eq!(id, "300"),
        _ => unreachable!(),
    }
}

#[test]
fn admins_opt_out_others_by_login() {
    match optout_user(&admins(), "admin", "200", "viewer".to_string(), false) {
        Ok(OptoutTarget::UserNamed(login)) => assert_eq!(login, "viewer"),
        _ => unreachable!(),
    }
    assert_eq!(
        optout_user(&admins(), "viewer", "300", "wrong".to_string(), false)
            .err()
            .map(|error| error.message()),
        Some("Invalid optout code".to_string())
    );
}

#[test]
fn updates_deal_with_every_channel_and_save() {
    let users = vec![
        ("1".to_string(), "one".to_string()),
        ("2".to_string(), "two".to_string()),
    ];
    let mut update = ChannelUpdate::new(ChannelAction::Join, users);
    for (id, login) in [("1", "one"), ("2", "two")] {
        match update.next_step(true) {
            ChannelStep::Join { channel_id, channel_login } => {
                assert_eq!(channel_id, id);
                assert_eq!(channel_login, login);
            }
            _ => unreachable!(),
        }
    }
    assert!(matches!(update.next_step(true), ChannelStep::Save));
    assert!(matches!(update.next_step(true), ChannelStep::Done));
    assert!(matches!(update.next_step(true), ChannelStep::Done));
}

#[test]
fn refused_updates_are_not_saved() {
    let users = vec![
        ("1".to_string(), "one".to_string()),
        ("2".to_string(), "two".to_string()),
    ];
    let mut update = ChannelUpdate::new(ChannelAction::Part, users);
    match update.next_step(true) {
        ChannelStep::Part { channel_id, channel_login } => {
            assert_eq!(channel_id, "1");
            assert_eq!(channel_login, "one");
        }
        _ => unreachable!(),
    }
    assert!(matches!(update.next_step(false), ChannelStep::Refused));
    assert!(matches!(update.next_step(true), ChannelStep::Refused));
}

#[test]
fn updates_without_channels_are_saved() {
    let mut update = ChannelUpdate::new(ChannelAction::Join, Vec::new());
    assert!(matches!(update.next_step(true), ChannelStep::Save));
    assert!(matches!(update.next_step(true), ChannelStep::Done));
}

/// Carries out a change on a list of ids.
fn carry_out(ids: &mut BTreeSet<String>, action: ChannelAction, users: &[(&str, &str)]) {
    let users = users
        .iter()
        .map(|(id, login)| (id.to_string(), login.to_string()))
        .collect();
    let mut update = ChannelUpdate::new(action, users);
    loop {
        match update.next_step(true) {
            ChannelStep::Join { channel_id, .. } => {
                ids.insert(channel_id);
            }
            ChannelStep::Part { channel_id, .. } => {
                ids.remove(&channel_id);
            }
            ChannelStep::Save => {}
            ChannelStep::Done => return,
            ChannelStep::Refused => unreachable!(),
        }
    }
}

#[test]
fn parting_restores_the_list() {
    let old = BTreeSet::from(["1".to_string(), "2".to_string()]);
    let users = [("3", "three"), ("4", "four")];
    let mut ids = old.clone();
    carry_out(&mut ids, ChannelAction::Join, &users);
    assert_eq!(ids.len(), 4);
    for _ in 0..2 {
        carry_out(&mut ids, ChannelAction::Part, &users);
        assert_eq!(ids, old);
    }
}

#[test]
fn optout_codes_work_once() {
    let mut codes = BTreeSet::from(["secret-code".to_string()]);
    let mut give = |login: &str, id: &str| {
        let valid = codes.remove("secret-code");
        optout_user(&admins(), login, id, "secret-code".to_string(), valid)
    };
    match give("viewer", "300") {
        Ok(OptoutTarget::UserId(id)) => assert_eq!(id, "300"),
        _ => unreachable!(),
    }
    assert!(matches!(
        give("other", "400"),
        Err(CommandError::InvalidOptoutCode)
    ));
}

use rustlog_bot::identity::{identify, row_identity, to_hex};
use rustlog_bot::irc::{clean_line, parse_line};
use rustlog_bot::message::{
    prepare_message, prepare_message_at, structured_event_identity, write_prepared,
    PreparedMessage, StructuredMessage, WriteAction,
};

const REPLAYED_COMMAND: &str = "@room-id=1;user-id=200;tmi-sent-ts=1704067200000;id=robotty-command;display-name=admin;badges=;color=;user-type=;emotes=;flags= :admin!admin@admin.tmi.twitch.tv PRIVMSG #channelone :!rustlog optout secret-code";
const UUID_MESSAGE: &str = "@room-id=1;user-id=200;tmi-sent-ts=1704067200000;id=272e342c-5864-4c59-b730-25908cdb7f57;display-name=user;badges=;color=;user-type=;emotes=;flags= :user!user@user.tmi.twitch.tv PRIVMSG #channelone :hello";

/// A structured message with the columns of a raw line as its row.
fn structured(uuid: Option<&str>, raw: &str) -> StructuredMessage<String> {
    StructuredMessage {
        channel_id: "1".to_string(),
        user_id: "200".to_string(),
        timestamp: 1_704_067_200_000,
        uuid: uuid.map(str::to_string),
        canonical: serde_json::to_vec(&("1", "200", 1_704_067_200_000_u64, raw)).unwrap(),
        row: raw.to_string(),
    }
}

#[test]
fn event_identity_uses_uuid_and_structured_hash_fallback() {
    let uuid = parse_line(UUID_MESSAGE).unwrap().tag("id");
    let with_id = structured(uuid.as_deref(), UUID_MESSAGE);
    assert_eq!(
        structured_event_identity(&with_id),
        "uuid:272e342c-5864-4c59-b730-25908cdb7f57"
    );

    let without_id = structured(None, REPLAYED_COMMAND);
    let identity = structured_event_identity(&without_id);
    assert!(identity.starts_with("row:"));
    assert_eq!(identity.len(), 68);
    assert_eq!(identity, structured_event_identity(&without_id));
}

#[test]
fn rows_are_identified_by_their_digest() {
    assert_eq!(
        identify(&None, b""),
        "row:af1349b9f5f9a1a6a0404dea36dcc9499bcb25c9adc112b7cc9a93cae41f3262"
    );
    assert_eq!(
        identify(&None, b"abc"),
        "row:6437b3ac38465133ffb63b75273a8db548c558465d79db03fd359c6cd5bd9d85"
    );
    assert_ne!(identify(&None, b"a"), identify(&None, b"b"));
    assert_eq!(row_identity(&[0, 255]), "row:00ff");
    let row = structured(None, REPLAYED_COMMAND);
    assert_eq!(
        structured_event_identity(&row),
        format!("row:{}", blake3::hash(&row.canonical).to_hex())
    );
}

#[test]
fn identifiers_go_before_rows() {
    let id = Some("row:".to_string());
    assert_eq!(identify(&id, b"abc"), "uuid:row:");
    assert_eq!(identify(&id, b"abc"), identify(&id, b"other"));
    assert_eq!(identify(&Some(String::new()), b"abc"), "uuid:");
    assert_ne!(identify(&id, b"abc"), identify(&None, b"abc"));
}

#[test]
fn bytes_have_two_lower_case_digits() {
    assert_eq!(to_hex(&[]), "");
    assert_eq!(
        to_hex(&[0x00, 0x09, 0x0a, 0x0f, 0x10, 0x9f, 0xa0, 0xff]),
        "00090a0f109fa0ff"
    );
}

#[test]
fn lines_are_taken_apart() {
    let message = parse_line(REPLAYED_COMMAND).unwrap();
    assert_eq!(message.command, "PRIVMSG");
    assert_eq!(message.params, ["#channelone", "!rustlog optout secret-code"]);
    assert_eq!(message.tag("room-id"), Some("1".to_string()));
    assert_eq!(message.tag("badges"), Some(String::new()));
    assert_eq!(message.tag("missing"), None);
    let tagged = parse_line("@plain;escaped=a\\sb PING").unwrap();
    assert_eq!(tagged.tag("plain"), None);
    assert_eq!(tagged.tag("escaped"), Some("a b".to_string()));
}

#[test]
fn lines_are_cleaned_first() {
    assert_eq!(clean_line(" \0\0PING\0 \n"), "PING");
    assert_eq!(clean_line("\0 PING \0"), " PING ");
    assert_eq!(parse_line("\r\n\0PING\0 ").unwrap().command, "PING");
}

#[test]
fn malformed_lines_are_told() {
    let error = |raw: &str| parse_line(raw).err();
    assert_eq!(
        error("@ PING"),
        Some("No tags after @ sign".to_string())
    );
    assert_eq!(
        error("@a=b"),
        Some("No space found after tags (no command/prefix)".to_string())
    );
    assert_eq!(
        error("#!"),
        Some("Expected command to only consist of alphabetic or numeric characters".to_string())
    );
    assert_eq!(
        error("PING\nPONG"),
        Some("Newlines are not permitted in raw IRC messages".to_string())
    );
}

#[test]
fn channel_descriptions_are_not_logged() {
    let ids = Some(("1".to_string(), Some("200".to_string())));
    let state = parse_line("@room-id=1 :tmi.twitch.tv ROOMSTATE #channelone").unwrap();
    assert!(prepare_message(&state, ids.clone(), Some(5), "raw").is_none());
    assert!(prepare_message(&state, ids, None, "raw").is_none());
}

#[test]
fn lines_without_a_channel_are_not_logged() {
    let ping = parse_line("PING :tmi.twitch.tv").unwrap();
    assert!(prepare_message(&ping, None, Some(5), "raw").is_none());
    assert!(prepare_message(&ping, None, None, "raw").is_none());
}

#[test]
fn lines_are_logged_with_the_time_they_were_sent() {
    let line = parse_line(UUID_MESSAGE).unwrap();
    let ids = Some(("1".to_string(), Some("200".to_string())));
    let message = prepare_message(&line, ids, Some(1_704_067_200_000), UUID_MESSAGE).unwrap();
    assert_eq!(message.channel_id, "1");
    assert_eq!(message.user_id, "200");
    assert_eq!(message.timestamp, 1_704_067_200_000);
    assert_eq!(message.raw, UUID_MESSAGE);
}

#[test]
fn missing_users_and_times_are_filled_in() {
    let line = parse_line("@room-id=1 CLEARCHAT #channelone").unwrap();
    let ids = Some(("1".to_string(), None));
    let message = prepare_message_at(&line, ids, None, 7, "raw").unwrap();
    assert_eq!(message.user_id, "");
    assert_eq!(message.timestamp, 7);

    let ids = Some(("1".to_string(), None));
    let received = prepare_message(&line, ids, None, "raw").unwrap();
    assert!(received.timestamp > 1_704_067_200_000);
    assert!(received.timestamp < 4_102_444_800_000);
}

#[test]
fn messages_are_stored_unless_someone_opted_out() {
    let prepared = || PreparedMessage::of_structured(structured(Some("a"), "raw"));
    assert!(matches!(write_prepared(prepared(), true, false), WriteAction::Skip));
    assert!(matches!(write_prepared(prepared(), false, true), WriteAction::Skip));
    assert!(matches!(write_prepared(prepared(), true, true), WriteAction::Skip));
    match write_prepared(prepared(), false, false) {
        WriteAction::Store { message, counted } => {
            assert!(counted);
            assert_eq!(message.row, "raw");
        }
        WriteAction::Skip => unreachable!(),
    }
}

#[test]
fn messages_without_a_channel_are_stored_and_not_counted() {
    let mut message = structured(Some("a"), "raw");
    message.channel_id = String::new();
    match write_prepared(PreparedMessage::of_structured(message), false, false) {
        WriteAction::Store { counted, .. } => assert!(!counted),
        WriteAction::Skip => unreachable!(),
    }
}

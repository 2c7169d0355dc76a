use rustlog_bot::backfill::{
    line_outcome, Backfill, BackfillAction, BackfillEvent, ChannelRange, LineOutcome,
};
use rustlog_bot::bot::{
    join_round, live_action, Bot, LiveAction, ServerEvent, RECENT_MESSAGE_INFLIGHT_TTL_SECONDS,
};
use rustlog_bot::claims::ClaimTable;
use rustlog_bot::irc::parse_line;
use rustlog_bot::message::{prepare_message, PreparedMessage, StructuredMessage};
use rustlog_bot::recent_messages::{
    RecentMessagesClient, RecentMessagesResponse, RecentMessagesRuntimeSummary,
    RECENT_MESSAGES_TIMEOUT_SECONDS,
};
use std::time::Duration;

const REPLAYED_COMMAND: &str = "@room-id=1;user-id=200;tmi-sent-ts=1704067200000;id=robotty-command;display-name=admin;badges=;color=;user-type=;emotes=;flags= :admin!admin@admin.tmi.twitch.tv PRIVMSG #channelone :!rustlog optout secret-code";
const UUID_MESSAGE: &str = "@room-id=1;user-id=200;tmi-sent-ts=1704067200000;id=272e342c-5864-4c59-b730-25908cdb7f57;display-name=user;badges=;color=;user-type=;emotes=;flags= :user!user@user.tmi.twitch.tv PRIVMSG #channelone :hello";

fn bot(enabled: bool) -> Bot {
    let client = RecentMessagesClient::from_summary(RecentMessagesRuntimeSummary {
        enabled,
        base_url: Some("http://127.0.0.1:9/api/v2/recent-messages".to_string()),
        limit: 800,
        warnings: Vec::new(),
    });
    Bot::new_with_recent_messages(client)
}

/// The columns of a raw line, taken from its tags; the row is the line itself.
fn columns(raw: &str) -> Result<Option<StructuredMessage<String>>, String> {
    let line = parse_line(raw)?;
    let ids = line.tag("room-id").map(|id| (id, line.tag("user-id")));
    let sent = line.tag("tmi-sent-ts").and_then(|time| time.parse().ok());
    Ok(prepare_message(&line, ids, sent, raw).map(|message| StructuredMessage {
        uuid: line.tag("id").filter(|id| id.len() == 36),
        canonical: serde_json::to_vec(&(&message.channel_id, &message.user_id, &message.raw))
            .unwrap(),
        channel_id: message.channel_id,
        user_id: message.user_id,
        timestamp: message.timestamp,
        row: message.raw,
    }))
}

fn replay(lines: &[&str]) -> Backfill<String> {
    Backfill::of_lines(lines.iter().map(|raw| line_outcome(columns(raw))).collect())
}

fn message(uuid: &str, channel_id: &str, timestamp: u64) -> StructuredMessage<u32> {
    StructuredMessage {
        channel_id: channel_id.to_string(),
        user_id: "200".to_string(),
        timestamp,
        uuid: Some(uuid.to_string()),
        canonical: Vec::new(),
        row: 0,
    }
}

fn prepared(uuid: &str, channel_id: &str, timestamp: u64) -> PreparedMessage<u32> {
    PreparedMessage::of_structured(message(uuid, channel_id, timestamp))
}

fn candidates(messages: Vec<PreparedMessage<u32>>) -> Backfill<u32> {
    Backfill::of_lines(messages.into_iter().map(LineOutcome::Prepared).collect())
}

fn table() -> ClaimTable {
    ClaimTable::new(30, 1000)
}

/// What a replay writes when nothing is stored yet.
fn written(replay: &mut Backfill<String>, claims: &mut ClaimTable) -> Vec<String> {
    let mut rows = Vec::new();
    let mut event = BackfillEvent::Proceed;
    loop {
        match replay.advance::<String>(claims, event) {
            BackfillAction::LookUp(_) => event = BackfillEvent::Found(Vec::new()),
            BackfillAction::Write(p) => {
                rows.push(p.message.row);
                event = BackfillEvent::Proceed;
            }
            BackfillAction::Done => return rows,
            BackfillAction::Failed => panic!("nothing failed"),
        }
    }
}

fn written_key(action: BackfillAction<u32>) -> String {
    match action {
        BackfillAction::Write(p) => p.dedupe_key,
        _ => panic!("nothing to write"),
    }
}

fn looked_up(action: BackfillAction<u32>) -> ChannelRange {
    match action {
        BackfillAction::LookUp(range) => range,
        _ => panic!("nothing to look up"),
    }
}

fn privmsg(text: &str) -> ServerEvent {
    ServerEvent::Privmsg {
        message_text: text.to_string(),
        sender_id: "200".to_string(),
        sender_login: "admin".to_string(),
    }
}

fn join(channel: &str, user: &str) -> ServerEvent {
    ServerEvent::Join {
        channel_login: channel.to_string(),
        user_login: user.to_string(),
    }
}

#[test]
fn backfill_inflight_ttl_exceeds_request_timeout() {
    assert!(
        Duration::from_secs(RECENT_MESSAGE_INFLIGHT_TTL_SECONDS)
            > Duration::from_secs(RECENT_MESSAGES_TIMEOUT_SECONDS)
    );
}

#[test]
fn replay_stores_a_repeated_command_once() {
    let mut claims = table();
    let mut replay = replay(&["not raw irc", REPLAYED_COMMAND, REPLAYED_COMMAND]);
    assert_eq!(written(&mut replay, &mut claims), [REPLAYED_COMMAND]);
}

#[test]
fn second_replay_of_the_same_lines_writes_nothing() {
    let mut claims = table();
    let lines = [UUID_MESSAGE, REPLAYED_COMMAND];
    assert_eq!(written(&mut replay(&lines), &mut claims), lines);
    assert!(written(&mut replay(&lines), &mut claims).is_empty());
}

#[test]
fn first_claim_on_each_key_is_granted() {
    let mut bot = bot(true);
    let keys = ["a", "b", "a", "c", "b", "a"];
    let granted: Vec<bool> = keys.iter().map(|key| bot.claim_message(key)).collect();
    assert_eq!(granted, [true, true, false, true, false, false]);
}

#[test]
fn replay_counts_malformed_lines() {
    let replay = replay(&["@a=b", UUID_MESSAGE, "", "PING", "@ PING"]);
    assert_eq!(replay.malformed_lines(), 3);
}

#[test]
fn line_outcomes_follow_the_columns() {
    assert!(matches!(
        line_outcome(columns("@room-id=1 ROOMSTATE #channelone")),
        LineOutcome::NotLogged
    ));
    assert!(matches!(line_outcome(columns("PING")), LineOutcome::NotLogged));
    assert!(matches!(line_outcome(columns("@a=b")), LineOutcome::Malformed));
    match line_outcome(columns(UUID_MESSAGE)) {
        LineOutcome::Prepared(p) => {
            assert_eq!(p.dedupe_key, "uuid:272e342c-5864-4c59-b730-25908cdb7f57");
            assert_eq!(p.message.timestamp, 1_704_067_200_000);
        }
        _ => unreachable!(),
    }
}

#[test]
fn lookup_failure_prevents_every_write() {
    let mut claims = table();
    let mut replay = replay(&[UUID_MESSAGE]);
    assert!(matches!(
        replay.advance::<u32>(&mut claims, BackfillEvent::Proceed),
        BackfillAction::LookUp(_)
    ));
    for event in [BackfillEvent::LookupFailed, BackfillEvent::Proceed] {
        assert!(matches!(
            replay.advance::<u32>(&mut claims, event),
            BackfillAction::Failed
        ));
    }
    assert!(matches!(
        replay.advance::<u32>(&mut claims, BackfillEvent::Found(Vec::new())),
        BackfillAction::Failed
    ));
    assert!(claims.claim("uuid:272e342c-5864-4c59-b730-25908cdb7f57"));
}

#[test]
fn replay_passes_over_a_message_that_came_live() {
    let mut bot = bot(true);
    let live = PreparedMessage::of_structured(columns(REPLAYED_COMMAND).unwrap().unwrap());
    let event = privmsg("!rustlog optout secret-code");
    assert!(matches!(
        bot.handle_message(&event, Some(live)),
        LiveAction::RunCommand { .. }
    ));

    let mut replay = replay(&[REPLAYED_COMMAND]);
    assert!(written(&mut replay, &mut bot.recent_message_dedupe).is_empty());
}

#[test]
fn live_message_is_ignored_after_its_replay() {
    let mut bot = bot(true);
    let mut replay = replay(&[UUID_MESSAGE]);
    assert_eq!(written(&mut replay, &mut bot.recent_message_dedupe), [UUID_MESSAGE]);

    let live = PreparedMessage::of_structured(columns(UUID_MESSAGE).unwrap().unwrap());
    assert!(matches!(
        bot.handle_message(&privmsg("hello"), Some(live)),
        LiveAction::Ignore
    ));
}

#[test]
fn remote_errors_leave_nothing_to_replay() {
    let response = RecentMessagesResponse {
        messages: vec![REPLAYED_COMMAND.to_string()],
        error: Some("temporarily unavailable".to_string()),
        error_code: Some("503".to_string()),
    };
    assert!(response.into_lines().is_none());
}

#[test]
fn lookups_span_each_channel() {
    let mut claims = table();
    let mut replay = candidates(vec![
        prepared("a", "1", 500),
        prepared("b", "2", 7),
        prepared("c", "1", 300),
        prepared("d", "1", 400),
        prepared("a", "1", 900),
    ]);
    let mut ranges = Vec::new();
    let mut event = BackfillEvent::Proceed;
    while ranges.len() < 2 {
        let range = looked_up(replay.advance::<u32>(&mut claims, event));
        assert_eq!(range.end_millis(), range.to_millis + 1);
        ranges.push((range.channel_id, range.from_millis, range.to_millis));
        event = BackfillEvent::Found(Vec::new());
    }
    ranges.sort();
    assert_eq!(
        ranges,
        [("1".to_string(), 300, 500), ("2".to_string(), 7, 7)]
    );
}

#[test]
fn spans_end_with_time() {
    let range = |to_millis: u64| ChannelRange {
        channel_id: "1".to_string(),
        from_millis: 0,
        to_millis,
    };
    assert_eq!(range(41).end_millis(), 42);
    assert_eq!(range(u64::MAX).end_millis(), u64::MAX);
}

#[test]
fn found_and_claimed_messages_are_not_written() {
    let mut claims = table();
    let mut replay = candidates(vec![
        prepared("stored", "1", 1),
        prepared("claimed", "1", 2),
        prepared("new", "1", 3),
        prepared("newer", "1", 4),
    ]);
    assert!(claims.claim("uuid:claimed"));
    looked_up(replay.advance::<u32>(&mut claims, BackfillEvent::Proceed));
    let found = vec![message("stored", "1", 1), message("other", "1", 1)];
    assert_eq!(
        written_key(replay.advance(&mut claims, BackfillEvent::Found(found))),
        "uuid:new"
    );
    assert_eq!(
        written_key(replay.advance::<u32>(&mut claims, BackfillEvent::Proceed)),
        "uuid:newer"
    );
    for _ in 0..2 {
        assert!(matches!(
            replay.advance::<u32>(&mut claims, BackfillEvent::Proceed),
            BackfillAction::Done
        ));
    }
    assert!(!claims.claim("uuid:new"));
    assert!(claims.claim("uuid:stored"));
    assert!(claims.claim("uuid:other"));
}

#[test]
fn first_message_of_each_key_is_written_in_order() {
    let numbered = |uuid: &str, row: u32| {
        let mut p = prepared(uuid, "1", 1);
        p.message.row = row;
        p
    };
    let mut claims = table();
    let mut replay = candidates(vec![
        numbered("b", 1),
        numbered("a", 2),
        numbered("b", 3),
        numbered("c", 4),
        numbered("a", 5),
    ]);
    let mut rows = Vec::new();
    let mut event = BackfillEvent::Proceed;
    loop {
        match replay.advance::<u32>(&mut claims, event) {
            BackfillAction::LookUp(_) => event = BackfillEvent::Found(Vec::new()),
            BackfillAction::Write(p) => {
                rows.push(p.message.row);
                event = BackfillEvent::Proceed;
            }
            _ => break,
        }
    }
    assert_eq!(rows, [1, 2, 4]);
}

#[test]
fn replay_without_candidates_is_done_at_once() {
    let mut claims = table();
    let mut replay = candidates(Vec::new());
    assert!(matches!(
        replay.advance::<u32>(&mut claims, BackfillEvent::Proceed),
        BackfillAction::Done
    ));
    assert_eq!(replay.malformed_lines(), 0);
}

#[test]
fn lookup_is_repeated_until_it_is_answered() {
    let mut claims = table();
    let mut replay = candidates(vec![prepared("a", "1", 1)]);
    for _ in 0..2 {
        let range = looked_up(replay.advance::<u32>(&mut claims, BackfillEvent::Proceed));
        assert_eq!(range.channel_id, "1");
    }
}

#[test]
fn claims_are_granted_once_until_released() {
    let mut claims = table();
    assert!(claims.claim("a"));
    assert!(!claims.claim("a"));
    assert!(claims.claim("b"));
    claims.release("a");
    assert!(claims.claim("a"));
    claims.release("never claimed");
    assert!(!claims.claim("b"));
}

#[test]
fn claims_lapse() {
    let mut claims = ClaimTable::new(0, 1000);
    assert!(claims.claim("a"));
    assert!(claims.claim("a"));
}

#[test]
fn own_joins_trigger_one_fetch_at_a_time() {
    let mut bot = bot(true);
    let own = join("ChannelOne", "JustInFan12345");
    let other = join("channelone", "viewer");
    let login = Some("justinfan12345");

    assert_eq!(
        bot.trigger_backfill_for_own_join(&own, login),
        Some("channelone".to_string())
    );
    assert_eq!(bot.trigger_backfill_for_own_join(&own, login), None);
    assert_eq!(bot.trigger_backfill_for_own_join(&other, login), None);

    bot.finish_backfill("channelone");
    assert_eq!(bot.trigger_backfill_for_own_join(&other, login), None);
    assert_eq!(
        bot.trigger_backfill_for_own_join(&own, login),
        Some("channelone".to_string())
    );
}

#[test]
fn channels_are_fetched_independently() {
    let mut bot = bot(true);
    assert_eq!(
        bot.trigger_recent_messages_fetch("broken"),
        Some("broken".to_string())
    );
    assert_eq!(
        bot.trigger_recent_messages_fetch("Working"),
        Some("working".to_string())
    );
    assert_eq!(bot.trigger_recent_messages_fetch("BROKEN"), None);
}

#[test]
fn only_own_joins_trigger_a_fetch() {
    let mut bot = bot(true);
    let login = Some("justinfan12345");
    assert_eq!(bot.trigger_backfill_for_own_join(&privmsg("hello"), login), None);
    assert_eq!(bot.trigger_backfill_for_own_join(&ServerEvent::Other, login), None);
    assert_eq!(bot.trigger_backfill_for_own_join(&join("one", "justinfan12345"), None), None);
    assert_eq!(
        bot.trigger_recent_messages_fetch("one"),
        Some("one".to_string())
    );
}

#[test]
fn nothing_is_fetched_when_switched_off() {
    let mut bot = bot(false);
    assert_eq!(bot.trigger_recent_messages_fetch("one"), None);
    assert_eq!(
        bot.trigger_backfill_for_own_join(&join("one", "me"), Some("me")),
        None
    );
    assert!(bot.backfill_inflight.claim("one"));
}

#[test]
fn live_messages_are_handled_once() {
    let mut bot = bot(true);
    assert!(matches!(
        bot.handle_message(&ServerEvent::Other, Some(prepared("a", "1", 1))),
        LiveAction::Store(_)
    ));
    assert!(matches!(
        bot.handle_message(&ServerEvent::Other, Some(prepared("a", "1", 1))),
        LiveAction::Ignore
    ));
    assert!(matches!(
        bot.handle_message::<u32>(&privmsg("!rustlog join one"), None),
        LiveAction::Ignore
    ));
    assert!(!bot.claim_message("uuid:a"));
    assert!(bot.claim_message("uuid:b"));
}

#[test]
fn commands_are_told_from_other_messages() {
    match live_action(&privmsg("!rustlog  join one"), prepared("a", "1", 1), true) {
        LiveAction::RunCommand { command, sender_id, sender_login, prepared } => {
            assert_eq!(command, " join one");
            assert_eq!(sender_id, "200");
            assert_eq!(sender_login, "admin");
            assert_eq!(prepared.dedupe_key, "uuid:a");
        }
        _ => unreachable!(),
    }
    for text in ["hello", "!rustlog", " !rustlog join one", "!Rustlog join one"] {
        match live_action(&privmsg(text), prepared("a", "1", 1), true) {
            LiveAction::Store(p) => assert_eq!(p.dedupe_key, "uuid:a"),
            _ => unreachable!(),
        }
    }
    assert!(matches!(
        live_action(&privmsg("!rustlog join one"), prepared("a", "1", 1), false),
        LiveAction::Ignore
    ));
}

#[test]
fn channels_are_joined_every_hour_or_retried_soon() {
    let round = join_round(Some(vec!["one".to_string()]));
    assert_eq!(round.channels, ["one"]);
    assert_eq!(round.pause_seconds, 3600);

    let failed = join_round(None);
    assert!(failed.channels.is_empty());
    assert_eq!(failed.pause_seconds, 5);
}

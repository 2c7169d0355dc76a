//! What the bot does with what it receives.
use crate::claims::ClaimTable;
use crate::command::COMMAND_PREFIX;
use crate::message::PreparedMessage;
use crate::recent_messages::{opt_str, RecentMessagesClient, RECENT_MESSAGES_TIMEOUT_SECONDS};
use crate::text::{
    after_prefix, lower, prefix_and_rest_make_the_text, same_ignoring_case, strip_prefix, to_lower,
};
use vstd::prelude::*;

verus! {

/// How many seconds pass before the channels are joined anew.
pub const CHANNEL_REJOIN_INTERVAL_SECONDS: u64 = 3600;

/// How many seconds pass before the list of channels is fetched again after that failed.
pub const CHANNELS_REFETCH_RETRY_INTERVAL_SECONDS: u64 = 5;

/// How many seconds a message counts as seen.
pub const RECENT_MESSAGE_DEDUPE_TTL_SECONDS: u64 = 30;

/// How many messages count as seen at most.
pub const RECENT_MESSAGE_DEDUPE_CAPACITY: u64 = 50_000;

/// How many channels can have a replay under way.
pub const RECENT_MESSAGE_INFLIGHT_CAPACITY: u64 = 10_000;

/// How many seconds a replay counts as under way at most.
pub const RECENT_MESSAGE_INFLIGHT_TTL_SECONDS: u64 = 30;

/// What the bot acts on in a message from the chat server.
pub enum ServerEvent {
    /// A user joined a channel.
    Join { channel_login: String, user_login: String },
    /// A user said something.
    Privmsg { message_text: String, sender_id: String, sender_login: String },
    /// Anything else.
    Other,
}

/// What to do with a message from the chat server.
pub enum LiveAction<T> {
    /// Nothing: it is not logged, or was seen already.
    Ignore,
    /// Carry out a command of a user, whether or not that succeeds, and store the message.
    RunCommand {
        command: String,
        sender_id: String,
        sender_login: String,
        prepared: PreparedMessage<T>,
    },
    /// Store the message.
    Store(PreparedMessage<T>),
}

/// The command that a message from the chat server holds.
pub open spec fn command_in(event: ServerEvent) -> Option<Seq<char>> {
    match event {
        ServerEvent::Privmsg { message_text, .. } => after_prefix(message_text@, COMMAND_PREFIX@),
        _ => None,
    }
}

/// Whether an action is the one for a message that is ready to be stored, given whether the claim
/// on its key was granted.
pub open spec fn is_live_action<T>(
    event: ServerEvent,
    prepared: PreparedMessage<T>,
    granted: bool,
    action: LiveAction<T>,
) -> bool {
    if !granted {
        action is Ignore
    } else {
        match command_in(event) {
            Some(text) => {
                &&& action matches LiveAction::RunCommand {
                    command,
                    sender_id,
                    sender_login,
                    prepared: stored,
                }
                &&& command@ == text
                &&& sender_id@ == event->sender_id@
                &&& sender_login@ == event->sender_login@
                &&& stored == prepared
            },
            None => action == LiveAction::Store(prepared),
        }
    }
}

/// What to do with a message that is ready to be stored, given whether the claim on its key was
/// granted.
pub fn live_action<T>(event: &ServerEvent, prepared: PreparedMessage<T>, granted: bool) -> (action:
    LiveAction<T>)
    ensures
        is_live_action(*event, prepared, granted, action),
        action is Ignore <==> !granted,
        action matches LiveAction::Store(p) ==> p == prepared,
        action matches LiveAction::RunCommand { prepared: p, .. } ==> p == prepared,
{
    if !granted {
        return LiveAction::Ignore;
    }
    match event {
        ServerEvent::Privmsg { message_text, sender_id, sender_login } => {
            match strip_prefix(message_text.as_str(), COMMAND_PREFIX) {
                Some(command) => LiveAction::RunCommand {
                    command,
                    sender_id: sender_id.clone(),
                    sender_login: sender_login.clone(),
                    prepared,
                },
                None => LiveAction::Store(prepared),
            }
        },
        _ => LiveAction::Store(prepared),
    }
}

/// The channel that the bot itself joined, going by its own login.
pub open spec fn own_join(event: ServerEvent, own_login: Option<Seq<char>>) -> Option<Seq<char>> {
    match event {
        ServerEvent::Join { channel_login, user_login } => match own_login {
            Some(login) => if lower(user_login@) == lower(login) {
                Some(channel_login@)
            } else {
                None
            },
            None => None,
        },
        _ => None,
    }
}

/// The channels to join, and how many seconds to wait before the next round.
pub struct JoinRound {
    /// The logins of the channels.
    pub channels: Vec<String>,
    /// The seconds.
    pub pause_seconds: u64,
}

/// Whether a round is the one for the logins of the channels, if they could be fetched.
pub open spec fn is_join_round(fetched: Option<Vec<String>>, round: JoinRound) -> bool {
    match fetched {
        Some(channels) => round.channels == channels && round.pause_seconds
            == CHANNEL_REJOIN_INTERVAL_SECONDS,
        None => round.channels@.len() == 0 && round.pause_seconds
            == CHANNELS_REFETCH_RETRY_INTERVAL_SECONDS,
    }
}

/// What to join in a round, given the logins of the channels, if they could be fetched.
pub fn join_round(fetched: Option<Vec<String>>) -> (round: JoinRound)
    ensures
        is_join_round(fetched, round),
        match fetched {
            Some(channels) => round.channels == channels && round.pause_seconds
                == CHANNEL_REJOIN_INTERVAL_SECONDS,
            None => round.channels@.len() == 0 && round.pause_seconds
                == CHANNELS_REFETCH_RETRY_INTERVAL_SECONDS,
        },
{
    match fetched {
        Some(channels) => JoinRound { channels, pause_seconds: CHANNEL_REJOIN_INTERVAL_SECONDS },
        None => JoinRound {
            channels: Vec::new(),
            pause_seconds: CHANNELS_REFETCH_RETRY_INTERVAL_SECONDS,
        },
    }
}

/// What the bot remembers.
pub struct Bot {
    /// Where recent messages come from.
    pub recent_messages: RecentMessagesClient,
    /// The keys of the messages that were seen.
    pub recent_message_dedupe: ClaimTable,
    /// The channels whose recent messages are being replayed.
    pub backfill_inflight: ClaimTable,
}

impl Bot {
    /// A bot that has seen nothing. A replay counts as under way for longer than its request may
    /// take.
    pub fn new_with_recent_messages(recent_messages: RecentMessagesClient) -> (bot: Bot)
        ensures
            bot.recent_messages == recent_messages,
            bot.recent_message_dedupe.may_hold() == Set::<Seq<char>>::empty(),
            bot.recent_message_dedupe.answers() == Seq::<(Seq<char>, bool)>::empty(),
            bot.recent_message_dedupe.policy() == (
                RECENT_MESSAGE_DEDUPE_TTL_SECONDS,
                RECENT_MESSAGE_DEDUPE_CAPACITY,
            ),
            bot.backfill_inflight.may_hold() == Set::<Seq<char>>::empty(),
            bot.backfill_inflight.answers() == Seq::<(Seq<char>, bool)>::empty(),
            bot.backfill_inflight.policy() == (
                RECENT_MESSAGE_INFLIGHT_TTL_SECONDS,
                RECENT_MESSAGE_INFLIGHT_CAPACITY,
            ),
            bot.recent_message_dedupe.policy() == (30u64, 50_000u64),
            bot.backfill_inflight.policy() == (30u64, 10_000u64),
            bot.backfill_inflight.policy().0 > RECENT_MESSAGES_TIMEOUT_SECONDS,
    {
        Bot {
            recent_messages,
            recent_message_dedupe: ClaimTable::new(
                RECENT_MESSAGE_DEDUPE_TTL_SECONDS,
                RECENT_MESSAGE_DEDUPE_CAPACITY,
            ),
            backfill_inflight: ClaimTable::new(
                RECENT_MESSAGE_INFLIGHT_TTL_SECONDS,
                RECENT_MESSAGE_INFLIGHT_CAPACITY,
            ),
        }
    }

    /// Claims the key of a message; returns whether the message is new.
    pub fn claim_message(&mut self, dedupe_key: &str) -> (granted: bool)
        ensures
            final(self).recent_message_dedupe.asked(
                &old(self).recent_message_dedupe,
                dedupe_key@,
                granted,
            ),
            *final(self) == (Bot {
                recent_message_dedupe: final(self).recent_message_dedupe,
                ..*old(self)
            }),
    {
        self.recent_message_dedupe.claim(dedupe_key)
    }

    /// What to do with a message from the chat server, given what is to be logged of it. A message
    /// whose key was never claimed is not ignored.
    pub fn handle_message<T>(
        &mut self,
        event: &ServerEvent,
        prepared: Option<PreparedMessage<T>>,
    ) -> (action: LiveAction<T>)
        ensures
            old(self).message_handled(final(self), *event, prepared, action),
    {
        match prepared {
            None => LiveAction::Ignore,
            Some(p) => {
                let granted: bool = self.claim_message(p.dedupe_key.as_str());
                live_action(event, p, granted)
            },
        }
    }

    /// How handling a message from the chat server changes the bot, and what it comes to.
    pub open spec fn message_handled<T>(
        &self,
        after: &Bot,
        event: ServerEvent,
        prepared: Option<PreparedMessage<T>>,
        action: LiveAction<T>,
    ) -> bool {
        match prepared {
            None => action is Ignore && *after == *self,
            Some(p) => {
                let granted = after.recent_message_dedupe.answers().last().1;
                &&& is_live_action(event, p, granted, action)
                &&& after.recent_message_dedupe.asked(
                    &self.recent_message_dedupe,
                    p.dedupe_key@,
                    granted,
                )
                &&& *after == (Bot { recent_message_dedupe: after.recent_message_dedupe, ..*self })
            },
        }
    }

    /// The channel, in lower case, whose recent messages are to be fetched now: the given one, if
    /// fetching is switched on and no replay of it is under way. A channel without a replay that
    /// was started and not finished has none under way.
    pub fn trigger_recent_messages_fetch(&mut self, channel_login: &str) -> (r: Option<String>)
        ensures
            old(self).fetch_triggered(final(self), channel_login@, r),
            r matches Some(channel) ==> channel@ == lower(channel_login@),
            old(self).recent_messages@.enabled && !old(self).backfill_inflight.may_hold().contains(
                lower(channel_login@),
            ) ==> r is Some,
    {
        if !self.recent_messages.enabled() {
            return None;
        }
        let channel: String = to_lower(channel_login);
        if self.backfill_inflight.claim(channel.as_str()) {
            Some(channel)
        } else {
            None
        }
    }

    /// How asking for the recent messages of a channel changes the bot, and what it comes to.
    pub open spec fn fetch_triggered(
        &self,
        after: &Bot,
        channel_login: Seq<char>,
        r: Option<String>,
    ) -> bool {
        if !self.recent_messages@.enabled {
            r is None && *after == *self
        } else {
            &&& r matches Some(channel) ==> channel@ == lower(channel_login)
            &&& after.backfill_inflight.asked(
                &self.backfill_inflight,
                lower(channel_login),
                r is Some,
            )
            &&& *after == (Bot { backfill_inflight: after.backfill_inflight, ..*self })
        }
    }

    /// The channel whose recent messages are to be fetched since the bot itself joined it.
    pub fn trigger_backfill_for_own_join(
        &mut self,
        event: &ServerEvent,
        own_login: Option<&str>,
    ) -> (r: Option<String>)
        ensures
            old(self).own_join_handled(final(self), *event, opt_str(own_login), r),
            match (*event, own_login) {
                (ServerEvent::Join { channel_login, user_login }, Some(login)) => if lower(
                    user_login@,
                ) == lower(login@) {
                    old(self).fetch_triggered(final(self), channel_login@, r)
                } else {
                    r is None && *final(self) == *old(self)
                },
                _ => r is None && *final(self) == *old(self),
            },
    {
        match event {
            ServerEvent::Join { channel_login, user_login } => match own_login {
                Some(login) => {
                    if same_ignoring_case(user_login.as_str(), login) {
                        self.trigger_recent_messages_fetch(channel_login.as_str())
                    } else {
                        None
                    }
                },
                None => None,
            },
            _ => None,
        }
    }

    /// How a message from the chat server changes the bot if it is about a join, and what that comes
    /// to.
    pub open spec fn own_join_handled(
        &self,
        after: &Bot,
        event: ServerEvent,
        own_login: Option<Seq<char>>,
        r: Option<String>,
    ) -> bool {
        match own_join(event, own_login) {
            Some(channel) => self.fetch_triggered(after, channel, r),
            None => r is None && *after == *self,
        }
    }

    /// How the end of a replay changes the bot.
    pub open spec fn backfill_finished(&self, after: &Bot, channel: Seq<char>) -> bool {
        &&& after.backfill_inflight.released(&self.backfill_inflight, channel)
        &&& *after == (Bot { backfill_inflight: after.backfill_inflight, ..*self })
    }

    /// Notes that the replay of a channel is over.
    pub fn finish_backfill(&mut self, channel: &str)
        ensures
            old(self).backfill_finished(final(self), channel@),
            final(self).backfill_inflight.released(&old(self).backfill_inflight, channel@),
            final(self).backfill_inflight.may_hold()
                == old(self).backfill_inflight.may_hold().remove(channel@),
            final(self).backfill_inflight.answers() == old(self).backfill_inflight.answers(),
            final(self).backfill_inflight.policy() == old(self).backfill_inflight.policy(),
            *final(self) == (Bot { backfill_inflight: final(self).backfill_inflight, ..*old(self) }),
    {
        self.backfill_inflight.release(channel)
    }
}

/// Joins are told to be the bot's own whatever the case of the letters in the logins.
pub proof fn own_join_ignores_case(event: ServerEvent, a: Seq<char>, b: Seq<char>)
    requires
        lower(a) == lower(b),
    ensures
        own_join(event, Some(a)) == own_join(event, Some(b)),
{
}

/// Once a replay of a channel is over, another can be started, if fetching is switched on.
pub proof fn finished_backfill_can_start_again(
    during: Bot,
    finished: Bot,
    after: Bot,
    channel_login: Seq<char>,
    r: Option<String>,
)
    requires
        finished.recent_messages@.enabled,
        finished.backfill_inflight.may_hold() == during.backfill_inflight.may_hold().remove(
            lower(channel_login),
        ),
        finished.fetch_triggered(&after, channel_login, r),
    ensures
        r is Some,
        r->0@ == lower(channel_login),
{
}

/// Of two requests to fetch the recent messages of one channel, whatever the case of its letters,
/// the first starts a replay if none is under way, and the second starts none while the claim of the
/// first lasts. Neither does anything if fetching is switched off.
pub proof fn one_backfill_at_a_time(
    first: Bot,
    second: Bot,
    third: Bot,
    a: Seq<char>,
    b: Seq<char>,
    r1: Option<String>,
    r2: Option<String>,
)
    requires
        lower(a) == lower(b),
        first.fetch_triggered(&second, a, r1),
        second.fetch_triggered(&third, b, r2),
        first.recent_messages@.enabled ==> {
            &&& !first.backfill_inflight.may_hold().contains(lower(a))
            &&& third.backfill_inflight.answers().last() == (lower(a), false)
        },
    ensures
        r2 is None,
        third.recent_message_dedupe == first.recent_message_dedupe,
        if first.recent_messages@.enabled {
            r1 matches Some(channel) && channel@ == lower(a)
        } else {
            r1 is None && third == first
        },
{
}

/// A message that is delivered twice is obeyed and stored once: the first time, if its key is free,
/// it is not ignored, and the second time it is, while the claim on its key lasts.
pub proof fn repeated_message_is_obeyed_once<T>(
    first: Bot,
    second: Bot,
    third: Bot,
    event: ServerEvent,
    again: ServerEvent,
    p: PreparedMessage<T>,
    q: PreparedMessage<T>,
    a1: LiveAction<T>,
    a2: LiveAction<T>,
)
    requires
        p.dedupe_key@ == q.dedupe_key@,
        first.message_handled(&second, event, Some(p), a1),
        second.message_handled(&third, again, Some(q), a2),
        !first.recent_message_dedupe.may_hold().contains(p.dedupe_key@),
        third.recent_message_dedupe.answers().last() == (p.dedupe_key@, false),
    ensures
        a1 !is Ignore,
        a2 is Ignore,
        third.backfill_inflight == first.backfill_inflight,
{
}

/// Whatever became of a replay, once it is over the next request for its channel starts another, and
/// the replays of other channels are as much under way as before.
pub proof fn finishing_frees_the_channel(
    during: Bot,
    finished: Bot,
    after: Bot,
    channel_login: Seq<char>,
    other: Seq<char>,
    r: Option<String>,
)
    requires
        during.recent_messages@.enabled,
        during.backfill_finished(&finished, lower(channel_login)),
        finished.fetch_triggered(&after, channel_login, r),
        other != lower(channel_login),
    ensures
        r matches Some(channel) && channel@ == lower(channel_login),
        after.backfill_inflight.may_hold().contains(other)
            <==> during.backfill_inflight.may_hold().contains(other),
        finished.recent_message_dedupe == during.recent_message_dedupe,
{
}

/// When a user joins a channel whose login is the bot's own up to the case of letters, whatever the
/// channel, its recent messages are fetched if fetching is switched on and no replay of it may be
/// under way.
pub proof fn every_own_join_triggers_a_fetch(
    before: Bot,
    after: Bot,
    channel_login: String,
    user_login: String,
    own_login: Seq<char>,
    r: Option<String>,
)
    requires
        lower(user_login@) == lower(own_login),
        before.recent_messages@.enabled,
        !before.backfill_inflight.may_hold().contains(lower(channel_login@)),
        before.own_join_handled(
            &after,
            ServerEvent::Join { channel_login, user_login },
            Some(own_login),
            r,
        ),
    ensures
        r matches Some(channel) && channel@ == lower(channel_login@),
        after.backfill_inflight.may_hold().contains(lower(channel_login@)),
{
}

/// What is fetched since the bot joined a channel is what would be fetched if it were asked for: the
/// channel's own recent messages, in any case.
pub proof fn own_join_asks_for_its_channel(
    before: Bot,
    after: Bot,
    channel_login: String,
    user_login: String,
    own_login: Seq<char>,
    r: Option<String>,
)
    requires
        lower(user_login@) == lower(own_login),
    ensures
        before.own_join_handled(
            &after,
            ServerEvent::Join { channel_login, user_login },
            Some(own_login),
            r,
        ) <==> before.fetch_triggered(&after, channel_login@, r),
{
}

/// Nothing but a join of the bot itself triggers a fetch.
pub proof fn nothing_else_triggers_a_fetch(
    before: Bot,
    after: Bot,
    event: ServerEvent,
    own_login: Option<Seq<char>>,
    r: Option<String>,
)
    requires
        before.own_join_handled(&after, event, own_login, r),
        match event {
            ServerEvent::Join { user_login, .. } => own_login is None || lower(user_login@) != lower(
                own_login->0,
            ),
            _ => true,
        },
    ensures
        r is None,
        after == before,
{
}

/// Whether the recent messages of a channel are fetched is what the claim on its lower-case login is
/// answered, and nothing but that claim changes.
pub proof fn fetch_follows_the_claim(
    before: Bot,
    after: Bot,
    channel_login: Seq<char>,
    r: Option<String>,
)
    requires
        before.fetch_triggered(&after, channel_login, r),
    ensures
        !before.recent_messages@.enabled ==> r is None && after == before,
        before.recent_messages@.enabled ==> after.backfill_inflight.answers()
            == before.backfill_inflight.answers().push((lower(channel_login), r is Some)),
        r matches Some(channel) ==> channel@ == lower(channel_login),
        after.recent_message_dedupe == before.recent_message_dedupe,
        after.recent_messages == before.recent_messages,
{
}

/// A chat message holds a command exactly if it starts with the prefix, and the command is all that
/// follows; nothing else holds a command.
pub proof fn command_is_all_after_the_prefix(
    message_text: String,
    sender_id: String,
    sender_login: String,
    channel_login: String,
    user_login: String,
    command: Seq<char>,
)
    ensures
        command_in(ServerEvent::Privmsg { message_text, sender_id, sender_login }) == Some(command)
            <==> message_text@ == "!rustlog "@ + command,
        command_in(ServerEvent::Privmsg { message_text, sender_id, sender_login }) is None
            <==> !"!rustlog "@.is_prefix_of(message_text@),
        command_in(ServerEvent::Join { channel_login, user_login }) is None,
        command_in(ServerEvent::Other) is None,
{
    prefix_and_rest_make_the_text(message_text@, "!rustlog "@, command);
}

/// A message whose claim was granted is stored whatever it is, and the command that it holds, and no
/// other, is carried out for its sender; one whose claim was denied is ignored.
pub proof fn granted_messages_are_stored_and_obeyed<T>(
    event: ServerEvent,
    prepared: PreparedMessage<T>,
    granted: bool,
    action: LiveAction<T>,
)
    requires
        is_live_action(event, prepared, granted, action),
    ensures
        action is Ignore <==> !granted,
        action matches LiveAction::Store(p) ==> p == prepared,
        action matches LiveAction::RunCommand { command, sender_id, sender_login, prepared: p } ==> {
            &&& p == prepared
            &&& event matches ServerEvent::Privmsg { message_text, sender_id: id, sender_login: login }
            &&& message_text@ == "!rustlog "@ + command@
            &&& sender_id@ == id@
            &&& sender_login@ == login@
        },
        granted ==> (action is RunCommand <==> (event matches ServerEvent::Privmsg {
            message_text,
            ..
        } && "!rustlog "@.is_prefix_of(message_text@))),
{
    if let ServerEvent::Privmsg { message_text, .. } = event {
        if let LiveAction::RunCommand { command, .. } = action {
            prefix_and_rest_make_the_text(message_text@, "!rustlog "@, command@);
        }
    }
}

/// What becomes of a message from the chat server follows the claim on its key, which is the only
/// thing that changes; nothing changes if nothing is to be logged of it.
pub proof fn handling_follows_the_claim<T>(
    before: Bot,
    after: Bot,
    event: ServerEvent,
    prepared: Option<PreparedMessage<T>>,
    action: LiveAction<T>,
)
    requires
        before.message_handled(&after, event, prepared, action),
    ensures
        prepared is None ==> action is Ignore && after == before,
        prepared matches Some(p) ==> after.recent_message_dedupe.answers()
            == before.recent_message_dedupe.answers().push((p.dedupe_key@, action !is Ignore)),
        prepared matches Some(p) ==> (!before.recent_message_dedupe.may_hold().contains(p.dedupe_key@)
            ==> action !is Ignore),
        after.backfill_inflight == before.backfill_inflight,
        after.recent_messages == before.recent_messages,
{
    if let Some(p) = prepared {
        let granted = after.recent_message_dedupe.answers().last().1;
        granted_messages_are_stored_and_obeyed(event, p, granted, action);
    }
}

/// A round joins all channels that were fetched and comes again after an hour; without them it joins
/// none and comes again after five seconds.
pub proof fn round_joins_every_channel(fetched: Option<Vec<String>>, round: JoinRound)
    requires
        is_join_round(fetched, round),
    ensures
        fetched matches Some(channels) ==> round.channels@ == channels@ && round.pause_seconds == 3600,
        fetched is None ==> round.channels@.len() == 0 && round.pause_seconds == 5,
{
}

} // verus!

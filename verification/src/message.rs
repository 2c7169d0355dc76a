//! Messages on their way to storage.
use crate::identity::{
    blake3_digest, event_identity, hex, identify, row_identities_follow_digests,
    uuid_and_row_identities_differ, uuid_identities_differ,
};
use crate::irc::IrcMessage;
use crate::text::{opt_text, same};
use vstd::prelude::*;

verus! {

/// What is known of a message before its raw line is given columns.
pub struct UnstructuredMessage {
    /// The channel that it was sent to.
    pub channel_id: String,
    /// The user that it is from or about; empty if there is none.
    pub user_id: String,
    /// When it was sent, in milliseconds.
    pub timestamp: u64,
    /// The line as it was received.
    pub raw: String,
}

/// The characters and numbers of an [`UnstructuredMessage`].
pub ghost struct UnstructuredView {
    pub channel_id: Seq<char>,
    pub user_id: Seq<char>,
    pub timestamp: u64,
    pub raw: Seq<char>,
}

impl View for UnstructuredMessage {
    type V = UnstructuredView;

    open spec fn view(&self) -> UnstructuredView {
        UnstructuredView {
            channel_id: self.channel_id@,
            user_id: self.user_id@,
            timestamp: self.timestamp,
            raw: self.raw@,
        }
    }
}

/// A message with columns, and the row of type `T` that is stored for it.
pub struct StructuredMessage<T> {
    /// The channel that it was sent to.
    pub channel_id: String,
    /// The user that it is from or about; empty if there is none.
    pub user_id: String,
    /// When it was sent, in milliseconds.
    pub timestamp: u64,
    /// Its own identifier, if it has one.
    pub uuid: Option<String>,
    /// The row in its canonical form. Only looked at where there is no identifier.
    pub canonical: Vec<u8>,
    /// The row.
    pub row: T,
}

impl<T> StructuredMessage<T> {
    /// What identifies the message.
    pub open spec fn identity(&self) -> Seq<char> {
        event_identity(opt_text(self.uuid), self.canonical@)
    }
}

/// A message that is ready to be stored.
pub struct PreparedMessage<T> {
    /// The message.
    pub message: StructuredMessage<T>,
    /// What identifies it.
    pub dedupe_key: String,
}

/// The command of the lines that describe a channel, which are not logged.
pub const ROOM_STATE_COMMAND: &'static str = "ROOMSTATE";

/// `chrono::Utc::now().timestamp_millis()`: the milliseconds since the start of 1970. The call
/// panics if the clock is set to an earlier time, so what it returns is not negative.
#[verifier::external_body]
fn current_millis() -> (now: i64)
    ensures
        now >= 0,
{
    chrono::Utc::now().timestamp_millis()
}

/// The characters of the channel and the user that a line names.
pub open spec fn ids_view(ids: Option<(String, Option<String>)>) -> Option<
    (Seq<char>, Option<Seq<char>>),
> {
    match ids {
        Some((channel_id, user_id)) => Some((channel_id@, opt_text(user_id))),
        None => None,
    }
}

/// What is to be logged of a line: nothing if it describes a channel or names none, and else the
/// line with the channel, the user or nobody, and the time at which it was sent or, if it does not
/// say, was received.
pub open spec fn logged(
    command: Seq<char>,
    ids: Option<(Seq<char>, Option<Seq<char>>)>,
    sent: Option<u64>,
    now: u64,
    raw: Seq<char>,
) -> Option<UnstructuredView> {
    if command == ROOM_STATE_COMMAND@ {
        None
    } else {
        match ids {
            Some((channel_id, user_id)) => Some(
                UnstructuredView {
                    channel_id,
                    user_id: match user_id {
                        Some(id) => id,
                        None => Seq::empty(),
                    },
                    timestamp: match sent {
                        Some(t) => t,
                        None => now,
                    },
                    raw,
                },
            ),
            None => None,
        }
    }
}

/// The characters and numbers of a message that may be missing.
pub open spec fn opt_unstructured(r: Option<UnstructuredMessage>) -> Option<UnstructuredView> {
    match r {
        Some(m) => Some(m@),
        None => None,
    }
}

/// Whether a message is of the channel, of the user or of nobody, and holds the line.
pub open spec fn is_message_of(
    m: UnstructuredMessage,
    ids: (String, Option<String>),
    raw: Seq<char>,
) -> bool {
    &&& m.channel_id@ == ids.0@
    &&& ids.1 matches Some(user_id) ==> m.user_id@ == user_id@
    &&& ids.1 is None ==> m.user_id@.len() == 0
    &&& m.raw@ == raw
}

/// What is to be logged of a line that was received at the given time, by the channel and the user
/// that it names and the time at which it says that it was sent.
pub fn prepare_message_at(
    line: &IrcMessage,
    ids: Option<(String, Option<String>)>,
    sent: Option<u64>,
    now: u64,
    raw: &str,
) -> (r: Option<UnstructuredMessage>)
    ensures
        opt_unstructured(r) == logged(line@.command, ids_view(ids), sent, now, raw@),
        r is Some <==> line.command@ != "ROOMSTATE"@ && ids is Some,
        r matches Some(m) ==> is_message_of(m, ids->0, raw@) && m.timestamp == match sent {
            Some(t) => t,
            None => now,
        },
{
    if same(line.command.as_str(), ROOM_STATE_COMMAND) {
        return None;
    }
    match ids {
        Some((channel_id, user_id)) => Some(
            UnstructuredMessage {
                channel_id,
                user_id: match user_id {
                    Some(id) => id,
                    None => String::new(),
                },
                timestamp: match sent {
                    Some(t) => t,
                    None => now,
                },
                raw: raw.to_owned(),
            },
        ),
        None => None,
    }
}

/// What is to be logged of a line that was received just now. The time that stands in for a missing
/// one is read from the clock, and only if it is needed; which time that is remains unsaid.
pub fn prepare_message(
    line: &IrcMessage,
    ids: Option<(String, Option<String>)>,
    sent: Option<u64>,
    raw: &str,
) -> (r: Option<UnstructuredMessage>)
    ensures
        exists|now: u64|
            #![trigger logged(line@.command, ids_view(ids), sent, now, raw@)]
            now <= i64::MAX && opt_unstructured(r) == logged(
                line@.command,
                ids_view(ids),
                sent,
                now,
                raw@,
            ),
        r is Some <==> line.command@ != "ROOMSTATE"@ && ids is Some,
        r matches Some(m) ==> is_message_of(m, ids->0, raw@) && (sent matches Some(t) ==> m.timestamp
            == t),
{
    let is_logged: bool = ids.is_some() && !same(line.command.as_str(), ROOM_STATE_COMMAND);
    let now: u64 = if is_logged && sent.is_none() {
        current_millis() as u64
    } else {
        0
    };
    prepare_message_at(line, ids, sent, now, raw)
}

/// What identifies a message: its own identifier, or else the digest of its row.
pub fn structured_event_identity<T>(message: &StructuredMessage<T>) -> (r: String)
    ensures
        r@ == message.identity(),
        message.uuid matches Some(id) ==> r@ == "uuid:"@ + id@,
        message.uuid is None ==> r@ == "row:"@ + hex(blake3_digest(message.canonical@)),
        message.uuid is None ==> r@.len() == 68,
{
    identify(&message.uuid, message.canonical.as_slice())
}

impl<T> PreparedMessage<T> {
    /// Whether the key is what identifies the message.
    pub open spec fn wf(&self) -> bool {
        self.dedupe_key@ == self.message.identity()
    }

    /// The message with what identifies it.
    pub fn of_structured(message: StructuredMessage<T>) -> (prepared: Self)
        ensures
            prepared.message == message,
            prepared.dedupe_key@ == message.identity(),
            message.uuid matches Some(id) ==> prepared.dedupe_key@ == "uuid:"@ + id@,
            message.uuid is None ==> prepared.dedupe_key@ == "row:"@ + hex(
                blake3_digest(message.canonical@),
            ),
            message.uuid is None ==> prepared.dedupe_key@.len() == 68,
    {
        let dedupe_key: String = structured_event_identity(&message);
        PreparedMessage { message, dedupe_key }
    }
}

/// What to do with a message that is ready to be stored.
pub enum WriteAction<T> {
    /// Drop it.
    Skip,
    /// Store it; count it for its channel first, if that is told.
    Store { message: StructuredMessage<T>, counted: bool },
}

/// What to do with a message, given whether its channel and its user asked not to be logged.
pub open spec fn write_outcome<T>(
    prepared: PreparedMessage<T>,
    channel_opted_out: bool,
    user_opted_out: bool,
) -> WriteAction<T> {
    if channel_opted_out || user_opted_out {
        WriteAction::Skip
    } else {
        WriteAction::Store {
            message: prepared.message,
            counted: prepared.message.channel_id@.len() > 0,
        }
    }
}

/// What to do with a message, given whether its channel and its user asked not to be logged.
pub fn write_prepared<T>(
    prepared: PreparedMessage<T>,
    channel_opted_out: bool,
    user_opted_out: bool,
) -> (r: WriteAction<T>)
    ensures
        r == write_outcome(prepared, channel_opted_out, user_opted_out),
        r == if channel_opted_out || user_opted_out {
            WriteAction::Skip
        } else {
            WriteAction::Store {
                message: prepared.message,
                counted: prepared.message.channel_id@.len() > 0,
            }
        },
{
    if channel_opted_out || user_opted_out {
        return WriteAction::Skip;
    }
    let counted: bool = !prepared.message.channel_id.as_str().is_empty();
    WriteAction::Store { message: prepared.message, counted }
}

/// Nothing is left out but the lines that describe a channel and those that name none.
pub proof fn every_other_line_is_logged(
    command: Seq<char>,
    ids: Option<(Seq<char>, Option<Seq<char>>)>,
    sent: Option<u64>,
    now: u64,
    raw: Seq<char>,
)
    ensures
        logged(command, ids, sent, now, raw) is Some <==> command != "ROOMSTATE"@ && ids is Some,
{
}

/// A line is logged as it was received, for its channel, under its user or nobody, at the time at
/// which it was sent or else now.
pub proof fn lines_are_logged_in_full(
    command: Seq<char>,
    ids: Option<(Seq<char>, Option<Seq<char>>)>,
    sent: Option<u64>,
    now: u64,
    raw: Seq<char>,
)
    ensures
        logged(command, ids, sent, now, raw) matches Some(m) ==> {
            &&& m.raw == raw
            &&& ids matches Some((channel_id, user_id)) && m.channel_id == channel_id && match user_id {
                Some(id) => m.user_id == id,
                None => m.user_id.len() == 0,
            }
            &&& sent matches Some(t) ==> m.timestamp == t
            &&& sent is None ==> m.timestamp == now
        },
{
}

/// The view of a message shows all of it.
pub proof fn message_view_shows_all(m: UnstructuredMessage)
    ensures
        m@.channel_id == m.channel_id@,
        m@.user_id == m.user_id@,
        m@.timestamp == m.timestamp,
        m@.raw == m.raw@,
{
}

/// A message is identified by its own identifier, or by the digest of all of its row.
pub proof fn identity_is_of_the_whole_row<T>(m: StructuredMessage<T>)
    ensures
        m.uuid matches Some(id) ==> m.identity() == "uuid:"@ + id@,
        m.uuid is None ==> m.identity() == "row:"@ + hex(blake3_digest(m.canonical@)),
{
}

/// Two messages are the same event exactly if they have the same identifier, or both have none and
/// all of their rows have the same digest.
pub proof fn same_event_exactly_if_same_identifier_or_digest<T, U>(
    a: StructuredMessage<T>,
    b: StructuredMessage<U>,
)
    ensures
        a.identity() == b.identity() <==> match (a.uuid, b.uuid) {
            (Some(x), Some(y)) => x@ == y@,
            (None, None) => blake3_digest(a.canonical@) == blake3_digest(b.canonical@),
            _ => false,
        },
{
    match (a.uuid, b.uuid) {
        (Some(x), Some(y)) => {
            uuid_identities_differ(x@, y@, a.canonical@, b.canonical@);
        },
        (None, None) => {
            row_identities_follow_digests(a.canonical@, b.canonical@);
        },
        (Some(x), None) => {
            uuid_and_row_identities_differ(x@, a.canonical@, b.canonical@);
        },
        (None, Some(y)) => {
            uuid_and_row_identities_differ(y@, b.canonical@, a.canonical@);
        },
    }
}

/// A message is dropped exactly if its channel or its user asked not to be logged; otherwise it is
/// stored as it is, and counted if it has a channel.
pub proof fn only_opted_out_messages_are_dropped<T>(
    prepared: PreparedMessage<T>,
    channel_opted_out: bool,
    user_opted_out: bool,
)
    ensures
        ({
            let r = write_outcome(prepared, channel_opted_out, user_opted_out);
            &&& r is Skip <==> channel_opted_out || user_opted_out
            &&& r matches WriteAction::Store { message, counted } ==> message == prepared.message && (
            counted <==> message.channel_id@ != Seq::<char>::empty())
        }),
{
    if prepared.message.channel_id@.len() == 0 {
        assert(prepared.message.channel_id@ =~= Seq::<char>::empty());
    }
}

} // verus!

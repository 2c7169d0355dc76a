//! Replaying the recent messages of a channel: what to look up, and what to store.
use crate::claims::{held_after, held_after_is_held_or_asked, lemma_held_after, ClaimTable};
use crate::message::{structured_event_identity, PreparedMessage, StructuredMessage};
use crate::text::same;
use std::collections::VecDeque;
use vstd::hash_set::StringHashSet;
use vstd::prelude::*;

verus! {

/// What became of a line that was fetched.
pub enum LineOutcome<T> {
    /// It could not be taken apart, or not be given columns.
    Malformed,
    /// It is of a kind that is not logged.
    NotLogged,
    /// It is ready to be stored.
    Prepared(PreparedMessage<T>),
}

/// Whether that became of a line, given what giving it columns came to.
pub open spec fn is_line_outcome<T, E>(
    columns: Result<Option<StructuredMessage<T>>, E>,
    r: LineOutcome<T>,
) -> bool {
    match columns {
        Err(_) => r is Malformed,
        Ok(None) => r is NotLogged,
        Ok(Some(message)) => r matches LineOutcome::Prepared(p) && p.message == message && p.wf(),
    }
}

/// A line is ready to be stored exactly if it was given columns, and then with the message as it is
/// under its identity; a line that could not be given columns is malformed.
pub proof fn lines_with_columns_are_prepared<T, E>(
    columns: Result<Option<StructuredMessage<T>>, E>,
    r: LineOutcome<T>,
)
    requires
        is_line_outcome(columns, r),
    ensures
        r is Malformed <==> columns is Err,
        r is Prepared <==> columns is Ok && columns->Ok_0 is Some,
        r matches LineOutcome::Prepared(p) ==> {
            &&& columns matches Ok(Some(message)) && p.message == message
            &&& p.dedupe_key@ == p.message.identity()
        },
{
}

/// What became of a line, given what giving it columns came to: a message, nothing if the line is
/// not to be logged, or an error.
pub fn line_outcome<T, E>(columns: Result<Option<StructuredMessage<T>>, E>) -> (r: LineOutcome<T>)
    ensures
        is_line_outcome(columns, r),
        match columns {
            Err(_) => r is Malformed,
            Ok(None) => r is NotLogged,
            Ok(Some(message)) => r matches LineOutcome::Prepared(p) && p.message == message
                && p.wf(),
        },
{
    match columns {
        Err(_) => LineOutcome::Malformed,
        Ok(None) => LineOutcome::NotLogged,
        Ok(Some(message)) => LineOutcome::Prepared(PreparedMessage::of_structured(message)),
    }
}

/// Whether one of some messages has a key.
pub open spec fn has_key<T>(messages: Seq<PreparedMessage<T>>, key: Seq<char>) -> bool {
    exists|i: int| 0 <= i < messages.len() && (#[trigger] messages[i]).dedupe_key@ == key
}

/// The messages that some lines hold, in order, without those whose key occurred before.
pub open spec fn candidates_of<T>(lines: Seq<LineOutcome<T>>) -> Seq<PreparedMessage<T>>
    decreases lines.len(),
{
    if lines.len() == 0 {
        Seq::empty()
    } else {
        let before = candidates_of(lines.drop_last());
        match lines.last() {
            LineOutcome::Prepared(p) => if has_key(before, p.dedupe_key@) {
                before
            } else {
                before.push(p)
            },
            _ => before,
        }
    }
}

/// How many of some lines are malformed.
pub open spec fn malformed_in<T>(lines: Seq<LineOutcome<T>>) -> nat
    decreases lines.len(),
{
    if lines.len() == 0 {
        0
    } else {
        malformed_in(lines.drop_last()) + if lines.last() is Malformed {
            1nat
        } else {
            0
        }
    }
}

/// No two of some messages have the same key.
pub open spec fn keys_distinct<T>(messages: Seq<PreparedMessage<T>>) -> bool {
    forall|i: int, j: int|
        0 <= i < j < messages.len() ==> (#[trigger] messages[i]).dedupe_key@ != (
        #[trigger] messages[j]).dedupe_key@
}

/// No two candidates have the same key.
pub proof fn candidates_have_distinct_keys<T>(lines: Seq<LineOutcome<T>>)
    ensures
        keys_distinct(candidates_of(lines)),
    decreases lines.len(),
{
    if lines.len() > 0 {
        candidates_have_distinct_keys(lines.drop_last());
    }
}

/// The key of every message in the lines is that of a candidate.
pub proof fn candidates_cover_lines<T>(lines: Seq<LineOutcome<T>>, i: int)
    requires
        0 <= i < lines.len(),
        lines[i] is Prepared,
    ensures
        has_key(candidates_of(lines), lines[i]->Prepared_0.dedupe_key@),
    decreases lines.len(),
{
    let before = candidates_of(lines.drop_last());
    let all = candidates_of(lines);
    let key = lines[i]->Prepared_0.dedupe_key@;
    if i < lines.len() - 1 {
        candidates_cover_lines(lines.drop_last(), i);
        let k = choose|k: int| 0 <= k < before.len() && (#[trigger] before[k]).dedupe_key@ == key;
        assert(all[k] == before[k]);
    } else if !has_key(before, key) {
        assert(all[all.len() - 1].dedupe_key@ == key);
    }
}

/// Whether a message is that of a line, and no line before holds a message with its key.
pub open spec fn is_first_of_key<T>(
    lines: Seq<LineOutcome<T>>,
    i: int,
    p: PreparedMessage<T>,
) -> bool {
    &&& lines[i] == LineOutcome::Prepared(p)
    &&& forall|j: int|
        0 <= j < i ==> ((#[trigger] lines[j]) matches LineOutcome::Prepared(q) ==> q.dedupe_key@
            != p.dedupe_key@)
}

/// Of the messages with one key, the first is the one that becomes a candidate.
pub proof fn candidate_is_first_of_its_key<T>(lines: Seq<LineOutcome<T>>, k: int)
    requires
        0 <= k < candidates_of(lines).len(),
    ensures
        exists|i: int|
            0 <= i < lines.len() && #[trigger] is_first_of_key(lines, i, candidates_of(lines)[k]),
    decreases lines.len(),
{
    let earlier = lines.drop_last();
    let before = candidates_of(earlier);
    let p = candidates_of(lines)[k];
    if k < before.len() {
        candidate_is_first_of_its_key(earlier, k);
        let i = choose|i: int|
            0 <= i < earlier.len() && #[trigger] is_first_of_key(earlier, i, before[k]);
        assert(lines[i] == earlier[i]);
        assert forall|j: int| 0 <= j < i implies ((#[trigger] lines[j]) matches LineOutcome::Prepared(
            q,
        ) ==> q.dedupe_key@ != p.dedupe_key@) by {
            assert(lines[j] == earlier[j]);
        }
        assert(is_first_of_key(lines, i, p));
    } else {
        let n = earlier.len() as int;
        assert forall|j: int| 0 <= j < n implies ((#[trigger] lines[j]) matches LineOutcome::Prepared(
            q,
        ) ==> q.dedupe_key@ != p.dedupe_key@) by {
            assert(lines[j] == earlier[j]);
            if lines[j] is Prepared {
                candidates_cover_lines(earlier, j);
            }
        }
        assert(is_first_of_key(lines, n, p));
    }
}

/// What is the first of its key in some lines is so in more.
proof fn lemma_first_in_more<T>(lines: Seq<LineOutcome<T>>, i: int, p: PreparedMessage<T>)
    requires
        0 <= i < lines.len() - 1,
        is_first_of_key(lines.drop_last(), i, p),
    ensures
        is_first_of_key(lines, i, p),
{
    let earlier = lines.drop_last();
    assert(lines[i] == earlier[i]);
    assert forall|j: int| 0 <= j < i implies ((#[trigger] lines[j]) matches LineOutcome::Prepared(
        q,
    ) ==> q.dedupe_key@ != p.dedupe_key@) by {
        assert(lines[j] == earlier[j]);
    }
}

/// Candidates come in the order of their lines.
pub proof fn candidates_keep_the_order_of_lines<T>(lines: Seq<LineOutcome<T>>, a: int, b: int)
    requires
        0 <= a < b < candidates_of(lines).len(),
    ensures
        exists|i: int, j: int|
            0 <= i < j < lines.len() && #[trigger] is_first_of_key(lines, i, candidates_of(lines)[a])
                && #[trigger] is_first_of_key(lines, j, candidates_of(lines)[b]),
    decreases lines.len(),
{
    let earlier = lines.drop_last();
    let before = candidates_of(earlier);
    let p = candidates_of(lines)[a];
    let q = candidates_of(lines)[b];
    if b < before.len() {
        candidates_keep_the_order_of_lines(earlier, a, b);
        let (i, j) = choose|i: int, j: int|
            0 <= i < j < earlier.len() && #[trigger] is_first_of_key(earlier, i, before[a])
                && #[trigger] is_first_of_key(earlier, j, before[b]);
        lemma_first_in_more(lines, i, p);
        lemma_first_in_more(lines, j, q);
    } else {
        candidate_is_first_of_its_key(earlier, a);
        let i = choose|i: int|
            0 <= i < earlier.len() && #[trigger] is_first_of_key(earlier, i, before[a]);
        lemma_first_in_more(lines, i, p);
        candidate_is_first_of_its_key(lines, b);
        let j = choose|j: int| 0 <= j < lines.len() && #[trigger] is_first_of_key(lines, j, q);
        if j < earlier.len() {
            assert(lines[j] == earlier[j]);
            candidates_cover_lines(earlier, j);
            assert(has_key(before, q.dedupe_key@));
        }
    }
}

/// The malformed lines are counted, each once.
pub proof fn malformed_lines_are_counted<T>(lines: Seq<LineOutcome<T>>)
    ensures
        malformed_in(lines) == lines.filter(|line: LineOutcome<T>| line is Malformed).len(),
    decreases lines.len(),
{
    reveal(Seq::filter);
    if lines.len() > 0 {
        malformed_lines_are_counted(lines.drop_last());
    }
}

/// A time span in a channel, both ends being part of it.
pub struct ChannelRange {
    /// The channel.
    pub channel_id: String,
    /// The earliest time, in milliseconds.
    pub from_millis: u64,
    /// The latest time, in milliseconds.
    pub to_millis: u64,
}

impl ChannelRange {
    /// Whether a message lies in the span.
    pub open spec fn spans<T>(&self, p: PreparedMessage<T>) -> bool {
        &&& self.channel_id@ == p.message.channel_id@
        &&& self.from_millis <= p.message.timestamp <= self.to_millis
    }

    /// Whether a message of the channel was sent at a time.
    pub open spec fn met_at<T>(&self, p: PreparedMessage<T>, millis: u64) -> bool {
        self.channel_id@ == p.message.channel_id@ && p.message.timestamp == millis
    }

    /// The end of the span, not being part of it; at the end of time, the latest time itself.
    pub open spec fn end(&self) -> u64 {
        if self.to_millis == u64::MAX {
            u64::MAX
        } else {
            (self.to_millis + 1) as u64
        }
    }

    /// The end of the span, not being part of it; at the end of time, the latest time itself.
    pub fn end_millis(&self) -> (r: u64)
        ensures
            r == self.end(),
    {
        self.to_millis.saturating_add(1)
    }
}

/// Whether a message lies in one of some spans.
pub open spec fn in_a_span<T>(ranges: Seq<ChannelRange>, p: PreparedMessage<T>) -> bool {
    exists|j: int| 0 <= j < ranges.len() && (#[trigger] ranges[j]).spans(p)
}

/// Whether one of some messages is of the channel of a span and was sent at a time.
pub open spec fn is_met<T>(
    messages: Seq<PreparedMessage<T>>,
    range: ChannelRange,
    millis: u64,
) -> bool {
    exists|i: int| 0 <= i < messages.len() && range.met_at(#[trigger] messages[i], millis)
}

/// No two of some spans are of the same channel.
pub open spec fn channels_distinct(ranges: Seq<ChannelRange>) -> bool {
    forall|i: int, j: int|
        0 <= i < j < ranges.len() ==> (#[trigger] ranges[i]).channel_id@ != (
        #[trigger] ranges[j]).channel_id@
}

/// Every one of some messages lies in a span.
pub open spec fn all_in_spans<T>(
    ranges: Seq<ChannelRange>,
    messages: Seq<PreparedMessage<T>>,
) -> bool {
    forall|i: int| 0 <= i < messages.len() ==> in_a_span(ranges, #[trigger] messages[i])
}

/// Every span starts with a message, and ends with one.
pub open spec fn ends_are_met<T>(
    ranges: Seq<ChannelRange>,
    messages: Seq<PreparedMessage<T>>,
) -> bool {
    forall|j: int|
        0 <= j < ranges.len() ==> is_met(messages, #[trigger] ranges[j], ranges[j].from_millis)
            && is_met(messages, ranges[j], ranges[j].to_millis)
}

/// One span for each channel that some messages are of, and in each from the earliest to the latest
/// of the messages.
pub open spec fn spans_all<T>(
    ranges: Seq<ChannelRange>,
    messages: Seq<PreparedMessage<T>>,
) -> bool {
    &&& channels_distinct(ranges)
    &&& all_in_spans(ranges, messages)
    &&& ends_are_met(ranges, messages)
}

/// What is met among some messages is met among more.
proof fn lemma_met_among_more<T>(
    messages: Seq<PreparedMessage<T>>,
    p: PreparedMessage<T>,
    range: ChannelRange,
    millis: u64,
)
    requires
        is_met(messages, range, millis),
    ensures
        is_met(messages.push(p), range, millis),
{
    let i = choose|i: int| 0 <= i < messages.len() && range.met_at(#[trigger] messages[i], millis);
    assert(messages.push(p)[i] == messages[i]);
}

/// What is met in a span depends on its channel only.
proof fn lemma_met_by_channel<T>(
    messages: Seq<PreparedMessage<T>>,
    a: ChannelRange,
    b: ChannelRange,
    millis: u64,
)
    requires
        is_met(messages, a, millis),
        a.channel_id@ == b.channel_id@,
    ensures
        is_met(messages, b, millis),
{
    let i = choose|i: int| 0 <= i < messages.len() && a.met_at(#[trigger] messages[i], millis);
    assert(b.met_at(messages[i], millis));
}

/// The latest message is met in a span of its channel.
proof fn lemma_latest_is_met<T>(
    messages: Seq<PreparedMessage<T>>,
    p: PreparedMessage<T>,
    range: ChannelRange,
)
    requires
        range.channel_id@ == p.message.channel_id@,
    ensures
        is_met(messages.push(p), range, p.message.timestamp),
{
    assert(range.met_at(messages.push(p)[messages.len() as int], p.message.timestamp));
}

/// Whether a span is another, widened to hold a message.
spec fn is_widened<T>(range: ChannelRange, p: PreparedMessage<T>, widened: ChannelRange) -> bool {
    let time = p.message.timestamp;
    &&& range.channel_id@ == p.message.channel_id@
    &&& widened.channel_id@ == range.channel_id@
    &&& widened.from_millis == if time < range.from_millis {
        time
    } else {
        range.from_millis
    }
    &&& widened.to_millis == if time > range.to_millis {
        time
    } else {
        range.to_millis
    }
}

/// Widening a span leaves no message out.
proof fn lemma_widened_holds_all<T>(
    before: Seq<ChannelRange>,
    messages: Seq<PreparedMessage<T>>,
    p: PreparedMessage<T>,
    j: int,
    widened: ChannelRange,
)
    requires
        all_in_spans(before, messages),
        0 <= j < before.len(),
        before[j].from_millis <= before[j].to_millis,
        is_widened(before[j], p, widened),
    ensures
        all_in_spans(before.update(j, widened), messages.push(p)),
{
    let after = before.update(j, widened);
    let all = messages.push(p);
    assert(after[j].spans(p));
    assert forall|i: int| 0 <= i < all.len() implies in_a_span(after, #[trigger] all[i]) by {
        if i < messages.len() {
            assert(in_a_span(before, messages[i]));
            let k = choose|k: int|
                0 <= k < before.len() && (#[trigger] before[k]).spans(messages[i]);
            assert(after[k].spans(all[i]));
        }
    }
}

/// A widened span still starts and ends with a message.
proof fn lemma_widened_is_met<T>(
    before: Seq<ChannelRange>,
    messages: Seq<PreparedMessage<T>>,
    p: PreparedMessage<T>,
    j: int,
    widened: ChannelRange,
)
    requires
        ends_are_met(before, messages),
        0 <= j < before.len(),
        is_widened(before[j], p, widened),
    ensures
        ends_are_met(before.update(j, widened), messages.push(p)),
{
    let after = before.update(j, widened);
    let all = messages.push(p);
    assert forall|k: int| 0 <= k < after.len() implies is_met(
        all,
        #[trigger] after[k],
        after[k].from_millis,
    ) && is_met(all, after[k], after[k].to_millis) by {
        let range = before[k];
        assert(is_met(messages, range, range.from_millis));
        lemma_met_among_more(messages, p, range, range.from_millis);
        lemma_met_among_more(messages, p, range, range.to_millis);
        if k == j {
            lemma_met_by_channel(all, range, widened, range.from_millis);
            lemma_met_by_channel(all, range, widened, range.to_millis);
            lemma_latest_is_met(messages, p, widened);
        }
    }
}

/// Spans stay apart if one is changed within its channel.
proof fn lemma_still_distinct(before: Seq<ChannelRange>, j: int, changed: ChannelRange)
    requires
        channels_distinct(before),
        0 <= j < before.len(),
        changed.channel_id@ == before[j].channel_id@,
    ensures
        channels_distinct(before.update(j, changed)),
{
    let after = before.update(j, changed);
    assert forall|i: int, k: int| 0 <= i < k < after.len() implies (
    #[trigger] after[i]).channel_id@ != (#[trigger] after[k]).channel_id@ by {
        assert(before[i].channel_id@ != before[k].channel_id@);
    }
}

/// Widening the span of its channel makes room for a message.
proof fn lemma_widened<T>(
    before: Seq<ChannelRange>,
    messages: Seq<PreparedMessage<T>>,
    p: PreparedMessage<T>,
    j: int,
    widened: ChannelRange,
)
    requires
        spans_all(before, messages),
        0 <= j < before.len(),
        is_widened(before[j], p, widened),
    ensures
        spans_all(before.update(j, widened), messages.push(p)),
{
    lemma_is_within(before, messages, j);
    lemma_widened_holds_all(before, messages, p, j, widened);
    lemma_widened_is_met(before, messages, p, j, widened);
    lemma_still_distinct(before, j, widened);
}

/// A span ends no earlier than it starts.
proof fn lemma_is_within<T>(ranges: Seq<ChannelRange>, messages: Seq<PreparedMessage<T>>, j: int)
    requires
        spans_all(ranges, messages),
        0 <= j < ranges.len(),
    ensures
        ranges[j].from_millis <= ranges[j].to_millis,
{
    assert(is_met(messages, ranges[j], ranges[j].from_millis));
    let i = choose|i: int|
        0 <= i < messages.len() && ranges[j].met_at(
            #[trigger] messages[i],
            ranges[j].from_millis,
        );
    assert(in_a_span(ranges, messages[i]));
    let k = choose|k: int| 0 <= k < ranges.len() && (#[trigger] ranges[k]).spans(messages[i]);
    assert(k == j) by {
        if k < j {
            assert(ranges[k].channel_id@ != ranges[j].channel_id@);
        } else if j < k {
            assert(ranges[j].channel_id@ != ranges[k].channel_id@);
        }
    }
}

/// A span of its own makes room for a message of a new channel.
proof fn lemma_added<T>(
    before: Seq<ChannelRange>,
    messages: Seq<PreparedMessage<T>>,
    p: PreparedMessage<T>,
    added: ChannelRange,
)
    requires
        spans_all(before, messages),
        forall|k: int|
            0 <= k < before.len() ==> (#[trigger] before[k]).channel_id@ != p.message.channel_id@,
        added.channel_id@ == p.message.channel_id@,
        added.from_millis == p.message.timestamp,
        added.to_millis == p.message.timestamp,
    ensures
        spans_all(before.push(added), messages.push(p)),
{
    let after = before.push(added);
    let all = messages.push(p);
    assert forall|i: int| 0 <= i < all.len() implies in_a_span(after, #[trigger] all[i]) by {
        if i < messages.len() {
            assert(in_a_span(before, messages[i]));
            let k = choose|k: int|
                0 <= k < before.len() && (#[trigger] before[k]).spans(messages[i]);
            assert(after[k].spans(all[i]));
        } else {
            assert(after[before.len() as int].spans(all[i]));
        }
    }
    assert forall|k: int| 0 <= k < after.len() implies is_met(
        all,
        #[trigger] after[k],
        after[k].from_millis,
    ) && is_met(all, after[k], after[k].to_millis) by {
        if k < before.len() {
            assert(is_met(messages, before[k], before[k].from_millis));
            lemma_met_among_more(messages, p, before[k], before[k].from_millis);
            lemma_met_among_more(messages, p, before[k], before[k].to_millis);
        } else {
            lemma_latest_is_met(messages, p, added);
        }
    }
}

/// The index of the span of a channel.
fn find_range(ranges: &Vec<ChannelRange>, channel_id: &str) -> (r: Option<usize>)
    ensures
        match r {
            Some(j) => j < ranges@.len() && ranges@[j as int].channel_id@ == channel_id@,
            None => forall|k: int|
                0 <= k < ranges@.len() ==> (#[trigger] ranges@[k]).channel_id@ != channel_id@,
        },
{
    for j in 0..ranges.len()
        invariant
            forall|k: int| 0 <= k < j ==> (#[trigger] ranges@[k]).channel_id@ != channel_id@,
    {
        if same(ranges[j].channel_id.as_str(), channel_id) {
            return Some(j);
        }
    }
    None
}

/// Makes room for one more message in some spans.
fn extend_ranges<T>(
    ranges: &mut Vec<ChannelRange>,
    p: &PreparedMessage<T>,
    messages: Ghost<Seq<PreparedMessage<T>>>,
)
    requires
        spans_all(old(ranges)@, messages@),
    ensures
        spans_all(final(ranges)@, messages@.push(*p)),
{
    let time: u64 = p.message.timestamp;
    match find_range(ranges, p.message.channel_id.as_str()) {
        Some(j) => {
            let from_millis: u64 = if time < ranges[j].from_millis {
                time
            } else {
                ranges[j].from_millis
            };
            let to_millis: u64 = if time > ranges[j].to_millis {
                time
            } else {
                ranges[j].to_millis
            };
            let widened = ChannelRange {
                channel_id: p.message.channel_id.clone(),
                from_millis,
                to_millis,
            };
            proof {
                lemma_widened(ranges@, messages@, *p, j as int, widened);
            }
            ranges.set(j, widened);
        },
        None => {
            let added = ChannelRange {
                channel_id: p.message.channel_id.clone(),
                from_millis: time,
                to_millis: time,
            };
            proof {
                lemma_added(ranges@, messages@, *p, added);
            }
            ranges.push(added);
        },
    }
}

/// A replay of the recent messages of a channel.
pub struct Backfill<T> {
    remaining: VecDeque<PreparedMessage<T>>,
    keys: StringHashSet,
    ranges: Vec<ChannelRange>,
    existing: StringHashSet,
    malformed: usize,
    failed: bool,
}

/// Where a [`Backfill`] stands.
pub ghost struct BackfillView<T> {
    /// How many of the lines were malformed.
    pub malformed: nat,
    /// Whether a lookup failed.
    pub failed: bool,
    /// The spans that are still to be looked up; the last one comes next.
    pub ranges: Seq<ChannelRange>,
    /// The keys of all candidates.
    pub keys: Set<Seq<char>>,
    /// Those of the keys that are known to be stored already.
    pub existing: Set<Seq<char>>,
    /// The candidates that are still to be dealt with.
    pub remaining: Seq<PreparedMessage<T>>,
}

/// Whether the candidates of a replay have different keys, which are all listed.
pub open spec fn candidates_ok<T>(s: BackfillView<T>) -> bool {
    &&& keys_distinct(s.remaining)
    &&& forall|i: int|
        0 <= i < s.remaining.len() ==> s.keys.contains((#[trigger] s.remaining[i]).dedupe_key@)
}

/// Whether a replay of some lines stands where it starts.
pub open spec fn is_new_replay<T>(s: BackfillView<T>, lines: Seq<LineOutcome<T>>) -> bool {
    &&& candidates_ok(s)
    &&& !s.failed
    &&& s.malformed == malformed_in(lines)
    &&& s.remaining == candidates_of(lines)
    &&& spans_all(s.ranges, candidates_of(lines))
    &&& forall|key: Seq<char>| #[trigger]
        s.keys.contains(key) <==> has_key(candidates_of(lines), key)
    &&& s.existing == Set::<Seq<char>>::empty()
}

/// What happened since a replay was last asked what to do.
pub enum BackfillEvent<U> {
    /// Nothing, or what it asked to be stored was dealt with.
    Proceed,
    /// The span that it asked for holds these messages.
    Found(Vec<StructuredMessage<U>>),
    /// The span that it asked for could not be looked up.
    LookupFailed,
}

/// What a replay is to do.
pub enum BackfillAction<T> {
    /// Look up what is stored of a span.
    LookUp(ChannelRange),
    /// Store a message.
    Write(PreparedMessage<T>),
    /// There is nothing left to do.
    Done,
    /// Give up, since a lookup failed.
    Failed,
}

/// Those of some keys that identify one of some messages.
pub open spec fn known_keys<U>(
    messages: Seq<StructuredMessage<U>>,
    keys: Set<Seq<char>>,
) -> Set<Seq<char>> {
    Set::new(
        |key: Seq<char>|
            keys.contains(key) && exists|i: int|
                0 <= i < messages.len() && (#[trigger] messages[i]).identity() == key,
    )
}

/// Where a replay stands once it was told what happened.
pub open spec fn recorded<T, U>(s: BackfillView<T>, event: BackfillEvent<U>) -> BackfillView<T> {
    match event {
        BackfillEvent::Proceed => s,
        BackfillEvent::Found(messages) => if !s.failed && s.ranges.len() > 0 {
            BackfillView {
                ranges: s.ranges.drop_last(),
                existing: s.existing.union(known_keys(messages@, s.keys)),
                ..s
            }
        } else {
            s
        },
        BackfillEvent::LookupFailed => BackfillView { failed: true, ..s },
    }
}

/// The keys of some messages, in order, but for those in a set.
pub open spec fn unknown_keys<T>(
    messages: Seq<PreparedMessage<T>>,
    existing: Set<Seq<char>>,
) -> Seq<Seq<char>>
    decreases messages.len(),
{
    if messages.len() == 0 {
        Seq::empty()
    } else {
        let before = unknown_keys(messages.drop_last(), existing);
        let key = messages.last().dedupe_key@;
        if existing.contains(key) {
            before
        } else {
            before.push(key)
        }
    }
}

/// The keys in a list of claims.
pub open spec fn keys_of(asked: Seq<(Seq<char>, bool)>) -> Seq<Seq<char>> {
    asked.map_values(|a: (Seq<char>, bool)| a.0)
}

/// How a replay goes through its candidates: those that are stored already are passed over, the
/// others are claimed, and the first whose claim is granted is the next to store. `passed` of them
/// are passed over, and `asked` are the claims.
pub open spec fn passes<T>(
    remaining: Seq<PreparedMessage<T>>,
    existing: Set<Seq<char>>,
    asked: Seq<(Seq<char>, bool)>,
    passed: int,
) -> bool {
    let found = passed < remaining.len();
    &&& 0 <= passed <= remaining.len()
    &&& found ==> !existing.contains(remaining[passed].dedupe_key@)
    &&& keys_of(asked) == unknown_keys(
        remaining.take(
            if found {
                passed + 1
            } else {
                passed
            },
        ),
        existing,
    )
    &&& forall|i: int|
        0 <= i < asked.len() ==> (#[trigger] asked[i]).1 == (found && i == asked.len() - 1)
}

/// The keys of some messages are among their keys.
proof fn lemma_unknown_keys<T>(
    messages: Seq<PreparedMessage<T>>,
    existing: Set<Seq<char>>,
    i: int,
)
    requires
        0 <= i < unknown_keys(messages, existing).len(),
    ensures
        has_key(messages, unknown_keys(messages, existing)[i]),
    decreases messages.len(),
{
    if messages.len() > 0 {
        let before = messages.drop_last();
        let keys = unknown_keys(before, existing);
        if i < keys.len() {
            lemma_unknown_keys(before, existing, i);
            let k = choose|k: int|
                0 <= k < before.len() && (#[trigger] before[k]).dedupe_key@ == keys[i];
            assert(messages[k] == before[k]);
        } else {
            assert(messages[messages.len() - 1].dedupe_key@ == unknown_keys(messages, existing)[i]);
        }
    }
}

impl<T> View for Backfill<T> {
    type V = BackfillView<T>;

    closed spec fn view(&self) -> BackfillView<T> {
        BackfillView {
            malformed: self.malformed as nat,
            failed: self.failed,
            ranges: self.ranges@,
            keys: self.keys@,
            existing: self.existing@,
            remaining: self.remaining@,
        }
    }
}

impl<T> Backfill<T> {
    /// The candidates have different keys, which are all listed.
    pub open spec fn wf(&self) -> bool {
        candidates_ok(self@)
    }

    /// The replay of some lines.
    #[verifier::spinoff_prover]
    #[verifier::rlimit(60)]
    pub fn of_lines(lines: Vec<LineOutcome<T>>) -> (r: Self)
        ensures
            r.wf(),
            r@.malformed == malformed_in(lines@),
            !r@.failed,
            r@.remaining == candidates_of(lines@),
            spans_all(r@.ranges, candidates_of(lines@)),
            forall|key: Seq<char>| #[trigger]
                r@.keys.contains(key) <==> has_key(candidates_of(lines@), key),
            r@.existing == Set::<Seq<char>>::empty(),
            is_new_replay(r@, lines@),
    {
        let ghost all = lines@;
        let total: usize = lines.len();
        let mut r = Backfill {
            remaining: VecDeque::new(),
            keys: StringHashSet::new(),
            ranges: Vec::new(),
            existing: StringHashSet::new(),
            malformed: 0,
            failed: false,
        };
        for line in it: lines
            invariant
                it.seq() == all,
                r.malformed == malformed_in(all.take(it.index() as int)),
                r.malformed <= it.index(),
                it.seq().len() == total,
                !r.failed,
                r.remaining@ == candidates_of(all.take(it.index() as int)),
                spans_all(r.ranges@, r.remaining@),
                forall|key: Seq<char>| #[trigger]
                    r.keys@.contains(key) <==> has_key(r.remaining@, key),
                r.existing@ == Set::<Seq<char>>::empty(),
        {
            proof {
                let n = it.index() as int;
                assert(all.take(n + 1).drop_last() == all.take(n));
                assert(all.take(n + 1).last() == line);
            }
            match line {
                LineOutcome::Malformed => {
                    r.malformed = r.malformed + 1;
                },
                LineOutcome::NotLogged => {},
                LineOutcome::Prepared(p) => {
                    let ghost before = r.remaining@;
                    if r.keys.insert(p.dedupe_key.clone()) {
                        extend_ranges(&mut r.ranges, &p, Ghost(before));
                        r.remaining.push_back(p);
                        proof {
                            lemma_key_added(before, p);
                        }
                    }
                },
            }
        }
        proof {
            assert(all.take(all.len() as int) == all);
            candidates_have_distinct_keys(all);
            assert forall|i: int| 0 <= i < r@.remaining.len() implies r@.keys.contains(
                (#[trigger] r@.remaining[i]).dedupe_key@,
            ) by {
                assert(has_key(r@.remaining, r@.remaining[i].dedupe_key@));
            }
        }
        r
    }

    /// How many of the lines were malformed.
    pub fn malformed_lines(&self) -> (r: usize)
        ensures
            r as nat == self@.malformed,
    {
        self.malformed
    }

    /// Notes which candidates are among some messages.
    fn note_existing<U>(&mut self, messages: &Vec<StructuredMessage<U>>)
        ensures
            final(self)@ == (BackfillView {
                existing: old(self)@.existing.union(known_keys(messages@, old(self)@.keys)),
                ..old(self)@
            }),
    {
        let ghost first = self@;
        assert(first.existing.union(known_keys(messages@.take(0), first.keys)) =~= first.existing);
        for i in 0..messages.len()
            invariant
                self@ == (BackfillView {
                    existing: first.existing.union(
                        known_keys(messages@.take(i as int), first.keys),
                    ),
                    ..first
                }),
        {
            let key: String = structured_event_identity(&messages[i]);
            let ghost k = key@;
            let ghost now = messages@.take(i as int);
            let ghost next = messages@.take(i + 1);
            let ghost before = self@.existing;
            if self.keys.contains(key.as_str()) {
                self.existing.insert(key);
            }
            proof {
                assert(next == now.push(messages@[i as int]));
                lemma_known_added(now, messages@[i as int], first.keys);
                assert(self@.existing =~= first.existing.union(known_keys(next, first.keys)));
            }
        }
        assert(messages@.take(messages@.len() as int) == messages@);
    }

    /// Goes through the candidates to the next one that is to be stored.
    fn next_write(&mut self, claims: &mut ClaimTable) -> (r: Option<PreparedMessage<T>>)
        requires
            old(self).wf(),
        ensures
            final(self).wf(),
            old(claims).answers().is_prefix_of(final(claims).answers()),
            final(claims).policy() == old(claims).policy(),
            replay_step(
                old(self)@,
                final(self)@,
                old(claims).may_hold(),
                final(claims).may_hold(),
                final(claims).answers().skip(old(claims).answers().len() as int),
                r,
            ),
    {
        let ghost s = self@;
        let ghost start = claims.answers();
        let ghost held = claims.may_hold();
        let mut passed: Ghost<int> = Ghost(0);
        let mut asked: Ghost<Seq<(Seq<char>, bool)>> = Ghost(Seq::empty());
        assert(s.remaining.skip(0) == s.remaining);
        assert(start + asked@ == start);
        loop
            invariant
                s == old(self)@,
                start == old(claims).answers(),
                held == old(claims).may_hold(),
                claims.policy() == old(claims).policy(),
                keys_distinct(s.remaining),
                forall|i: int|
                    0 <= i < s.remaining.len() ==> s.keys.contains(
                        (#[trigger] s.remaining[i]).dedupe_key@,
                    ),
                0 <= passed@ <= s.remaining.len(),
                self@ == (BackfillView { remaining: s.remaining.skip(passed@), ..s }),
                claims.answers() == start + asked@,
                claims.may_hold() == held_after(held, asked@),
                keys_of(asked@) == unknown_keys(s.remaining.take(passed@), s.existing),
                forall|i: int| 0 <= i < asked@.len() ==> !(#[trigger] asked@[i]).1,
                forall|i: int|
                    0 <= i < asked@.len() ==> held.contains((#[trigger] asked@[i]).0),
            decreases s.remaining.len() - passed@,
        {
            match self.remaining.pop_front() {
                None => {
                    proof {
                        lemma_tail(start, asked@);
                        assert(self@.remaining == Seq::<PreparedMessage<T>>::empty());
                        assert(passes(s.remaining, s.existing, asked@, passed@));
                    }
                    return None;
                },
                Some(p) => {
                    let ghost n = passed@;
                    assert(p == s.remaining[n]);
                    assert(self@.remaining == s.remaining.skip(n + 1));
                    assert(s.remaining.take(n + 1).drop_last() == s.remaining.take(n));
                    passed = Ghost(n + 1);
                    if !self.existing.contains(p.dedupe_key.as_str()) {
                        let granted: bool = claims.claim(p.dedupe_key.as_str());
                        let ghost earlier = asked@;
                        asked = Ghost(asked@.push((p.dedupe_key@, granted)));
                        proof {
                            assert(asked@.drop_last() == earlier);
                            assert(keys_of(asked@) == keys_of(earlier).push(p.dedupe_key@));
                            assert(start + asked@ == (start + earlier).push(
                                (p.dedupe_key@, granted),
                            ));
                            if !granted {
                                lemma_claimed_before(s.remaining, s.existing, held, earlier, n);
                            }
                        }
                        if granted {
                            proof {
                                lemma_tail(start, asked@);
                            }
                            assert(passes(s.remaining, s.existing, asked@, n));
                            return Some(p);
                        }
                    }
                },
            }
        }
    }

    /// What to do next, given what happened. Nothing is stored before every span was looked up, nor
    /// once a lookup failed.
    pub fn advance<U>(&mut self, claims: &mut ClaimTable, event: BackfillEvent<U>) -> (action:
        BackfillAction<T>)
        requires
            old(self).wf(),
        ensures
            final(self).wf(),
            old(claims).answers().is_prefix_of(final(claims).answers()),
            final(claims).policy() == old(claims).policy(),
            advances(
                recorded(old(self)@, event),
                final(self)@,
                old(claims).may_hold(),
                final(claims).may_hold(),
                final(claims).answers().skip(old(claims).answers().len() as int),
                action,
            ),
            action is Failed <==> old(self)@.failed || event is LookupFailed,
            action matches BackfillAction::LookUp(range) ==> final(self)@.ranges.len() > 0 && range
                == final(self)@.ranges.last(),
            action is Write || action is Done ==> final(self)@.ranges.len() == 0,
    {
        let ghost s = recorded(self@, event);
        match event {
            BackfillEvent::Proceed => {},
            BackfillEvent::Found(messages) => {
                if !self.failed && self.ranges.len() > 0 {
                    self.note_existing(&messages);
                    self.ranges.pop();
                }
            },
            BackfillEvent::LookupFailed => {
                self.failed = true;
            },
        }
        assert(self@ == s);
        assert(claims.answers().skip(claims.answers().len() as int) == Seq::<
            (Seq<char>, bool),
        >::empty());
        if self.failed {
            return BackfillAction::Failed;
        }
        let waiting: usize = self.ranges.len();
        if waiting > 0 {
            let range: &ChannelRange = &self.ranges[waiting - 1];
            return BackfillAction::LookUp(
                ChannelRange {
                    channel_id: range.channel_id.clone(),
                    from_millis: range.from_millis,
                    to_millis: range.to_millis,
                },
            );
        }
        match self.next_write(claims) {
            Some(p) => BackfillAction::Write(p),
            None => BackfillAction::Done,
        }
    }
}

/// How a replay goes on from one candidate that is to be stored to the next: how it stands before
/// and after, what may be claimed before and after, what was asked for, and what is to be stored.
pub open spec fn replay_step<T>(
    before: BackfillView<T>,
    after: BackfillView<T>,
    held_before: Set<Seq<char>>,
    held_now: Set<Seq<char>>,
    asked: Seq<(Seq<char>, bool)>,
    next: Option<PreparedMessage<T>>,
) -> bool {
    let passed = match next {
        Some(_) => before.remaining.len() - after.remaining.len() - 1,
        None => before.remaining.len() as int,
    };
    &&& passes(before.remaining, before.existing, asked, passed)
    &&& match next {
        Some(p) => {
            &&& passed < before.remaining.len()
            &&& p == before.remaining[passed]
            &&& after == BackfillView { remaining: before.remaining.skip(passed + 1), ..before }
        },
        None => after == BackfillView { remaining: Seq::empty(), ..before },
    }
    &&& held_now == held_after(held_before, asked)
    &&& forall|i: int|
        0 <= i < asked.len() ==> (#[trigger] asked[i]).1 || held_before.contains(asked[i].0)
}

/// What a replay does, given how it stands once it was told what happened.
pub open spec fn advances<T>(
    s: BackfillView<T>,
    after: BackfillView<T>,
    held_before: Set<Seq<char>>,
    held_now: Set<Seq<char>>,
    asked: Seq<(Seq<char>, bool)>,
    action: BackfillAction<T>,
) -> bool {
    if s.failed {
        action is Failed && after == s && asked.len() == 0 && held_now == held_before
    } else if s.ranges.len() > 0 {
        action == BackfillAction::<T>::LookUp(s.ranges.last()) && after == s && asked.len() == 0
            && held_now == held_before
    } else {
        &&& action is Write || action is Done
        &&& replay_step(
            s,
            after,
            held_before,
            held_now,
            asked,
            match action {
                BackfillAction::Write(p) => Some(p),
                _ => None,
            },
        )
    }
}

/// What was put behind a list is what follows it.
proof fn lemma_tail<A>(a: Seq<A>, b: Seq<A>)
    ensures
        a.is_prefix_of(a + b),
        (a + b).skip(a.len() as int) == b,
{
    assert((a + b).take(a.len() as int) == a);
}

/// A claim that is not granted is on a key that may have been claimed before the replay went on.
proof fn lemma_claimed_before<T>(
    remaining: Seq<PreparedMessage<T>>,
    existing: Set<Seq<char>>,
    held: Set<Seq<char>>,
    asked: Seq<(Seq<char>, bool)>,
    n: int,
)
    requires
        0 <= n < remaining.len(),
        keys_distinct(remaining),
        keys_of(asked) == unknown_keys(remaining.take(n), existing),
        held_after(held, asked).contains(remaining[n].dedupe_key@),
    ensures
        held.contains(remaining[n].dedupe_key@),
{
    let key = remaining[n].dedupe_key@;
    lemma_held_after(held, asked, key);
    if !held.contains(key) {
        let i = choose|i: int| 0 <= i < asked.len() && (#[trigger] asked[i]).0 == key;
        assert(keys_of(asked)[i] == key);
        lemma_unknown_keys(remaining.take(n), existing, i);
        let k = choose|k: int|
            0 <= k < n && (#[trigger] remaining.take(n)[k]).dedupe_key@ == key;
        assert(remaining[k].dedupe_key@ != remaining[n].dedupe_key@);
    }
}

/// One more message makes known the key that identifies it, if that is one of the keys.
proof fn lemma_known_added<U>(
    messages: Seq<StructuredMessage<U>>,
    m: StructuredMessage<U>,
    keys: Set<Seq<char>>,
)
    ensures
        known_keys(messages.push(m), keys) == if keys.contains(m.identity()) {
            known_keys(messages, keys).insert(m.identity())
        } else {
            known_keys(messages, keys)
        },
{
    let all = messages.push(m);
    assert forall|key: Seq<char>| known_keys(all, keys).contains(key) <==> keys.contains(key) && (
    known_keys(messages, keys).contains(key) || key == m.identity()) by {
        if known_keys(messages, keys).contains(key) {
            let i = choose|i: int|
                0 <= i < messages.len() && (#[trigger] messages[i]).identity() == key;
            assert(all[i].identity() == key);
        }
        if key == m.identity() {
            assert(all[messages.len() as int].identity() == key);
        }
        if known_keys(all, keys).contains(key) && key != m.identity() {
            let i = choose|i: int| 0 <= i < all.len() && (#[trigger] all[i]).identity() == key;
            assert(messages[i].identity() == key);
        }
    }
    if keys.contains(m.identity()) {
        assert(known_keys(all, keys) =~= known_keys(messages, keys).insert(m.identity()));
    } else {
        assert(known_keys(all, keys) =~= known_keys(messages, keys));
    }
}

/// One more message adds its key.
proof fn lemma_key_added<T>(before: Seq<PreparedMessage<T>>, p: PreparedMessage<T>)
    ensures
        forall|key: Seq<char>|
            has_key(before.push(p), key) <==> has_key(before, key) || key == p.dedupe_key@,
{
    assert forall|key: Seq<char>|
        has_key(before.push(p), key) <==> has_key(before, key) || key == p.dedupe_key@ by {
        let after = before.push(p);
        if has_key(before, key) {
            let i = choose|i: int|
                0 <= i < before.len() && (#[trigger] before[i]).dedupe_key@ == key;
            assert(after[i].dedupe_key@ == key);
        }
        if key == p.dedupe_key@ {
            assert(after[before.len() as int].dedupe_key@ == key);
        }
        if has_key(after, key) && key != p.dedupe_key@ {
            let i = choose|i: int| 0 <= i < after.len() && (#[trigger] after[i]).dedupe_key@ == key;
            assert(before[i].dedupe_key@ == key);
        }
    }
}

/// A span holds every message of its channel, and starts and ends with one.
pub proof fn spans_reach_from_earliest_to_latest<T>(
    ranges: Seq<ChannelRange>,
    messages: Seq<PreparedMessage<T>>,
    j: int,
)
    requires
        spans_all(ranges, messages),
        0 <= j < ranges.len(),
    ensures
        forall|i: int|
            0 <= i < messages.len() && (#[trigger] messages[i]).message.channel_id@
                == ranges[j].channel_id@ ==> ranges[j].from_millis <= messages[i].message.timestamp
                <= ranges[j].to_millis,
        exists|i: int|
            0 <= i < messages.len() && (#[trigger] messages[i]).message.channel_id@
                == ranges[j].channel_id@ && messages[i].message.timestamp == ranges[j].from_millis,
        exists|i: int|
            0 <= i < messages.len() && (#[trigger] messages[i]).message.channel_id@
                == ranges[j].channel_id@ && messages[i].message.timestamp == ranges[j].to_millis,
{
    let range = ranges[j];
    assert forall|i: int|
        0 <= i < messages.len() && (#[trigger] messages[i]).message.channel_id@
            == range.channel_id@ implies range.from_millis <= messages[i].message.timestamp
        <= range.to_millis by {
        assert(in_a_span(ranges, messages[i]));
        let k = choose|k: int| 0 <= k < ranges.len() && (#[trigger] ranges[k]).spans(messages[i]);
        if k < j {
            assert(ranges[k].channel_id@ != ranges[j].channel_id@);
        } else if j < k {
            assert(ranges[j].channel_id@ != ranges[k].channel_id@);
        }
    }
    assert(is_met(messages, range, range.from_millis) && is_met(messages, range, range.to_millis));
    let a = choose|i: int|
        0 <= i < messages.len() && range.met_at(#[trigger] messages[i], range.from_millis);
    assert(messages[a].message.timestamp == range.from_millis);
    let b = choose|i: int|
        0 <= i < messages.len() && range.met_at(#[trigger] messages[i], range.to_millis);
    assert(messages[b].message.timestamp == range.to_millis);
}

/// The end of a span comes right after its latest time, but at the end of time.
pub proof fn span_ends_right_after_its_latest_time(range: ChannelRange)
    ensures
        range.to_millis < u64::MAX ==> range.end() == range.to_millis + 1,
        range.to_millis == u64::MAX ==> range.end() == range.to_millis,
{
}

/// Every candidate lies between the start and the end of a span that is looked up, but for one at
/// the end of time.
pub proof fn lookups_reach_candidates<T>(
    ranges: Seq<ChannelRange>,
    messages: Seq<PreparedMessage<T>>,
    i: int,
)
    requires
        spans_all(ranges, messages),
        0 <= i < messages.len(),
        messages[i].message.timestamp < u64::MAX,
    ensures
        exists|j: int|
            0 <= j < ranges.len() && (#[trigger] ranges[j]).channel_id@
                == messages[i].message.channel_id@ && ranges[j].from_millis
                <= messages[i].message.timestamp < ranges[j].end(),
{
    assert(in_a_span(ranges, messages[i]));
    let j = choose|j: int| 0 <= j < ranges.len() && (#[trigger] ranges[j]).spans(messages[i]);
    assert(ranges[j].channel_id@ == messages[i].message.channel_id@);
}

/// While a span is still to be looked up, nothing is written and nothing is claimed.
pub proof fn lookups_come_before_writes<T>(
    s: BackfillView<T>,
    after: BackfillView<T>,
    held_before: Set<Seq<char>>,
    held_now: Set<Seq<char>>,
    asked: Seq<(Seq<char>, bool)>,
    action: BackfillAction<T>,
)
    requires
        s.ranges.len() > 0,
        advances(s, after, held_before, held_now, asked, action),
    ensures
        action is LookUp || action is Failed,
        held_now == held_before,
{
}

/// The key of the last of some messages comes last.
proof fn lemma_last_unknown_key<T>(messages: Seq<PreparedMessage<T>>, existing: Set<Seq<char>>)
    requires
        messages.len() > 0,
        !existing.contains(messages.last().dedupe_key@),
    ensures
        unknown_keys(messages, existing).len() > 0,
        unknown_keys(messages, existing).last() == messages.last().dedupe_key@,
{
}

/// A key that is not in the set is listed.
proof fn lemma_unknown_key_listed<T>(
    messages: Seq<PreparedMessage<T>>,
    existing: Set<Seq<char>>,
    k: int,
)
    requires
        0 <= k < messages.len(),
        !existing.contains(messages[k].dedupe_key@),
    ensures
        unknown_keys(messages, existing).contains(messages[k].dedupe_key@),
    decreases messages.len(),
{
    let keys = unknown_keys(messages, existing);
    let key = messages[k].dedupe_key@;
    if k < messages.len() - 1 {
        lemma_unknown_key_listed(messages.drop_last(), existing, k);
        let before = unknown_keys(messages.drop_last(), existing);
        let i = choose|i: int| 0 <= i < before.len() && before[i] == key;
        assert(keys[i] == key);
    } else {
        assert(keys[keys.len() - 1] == key);
    }
}

/// What a replay writes was not known to be stored, and its claim was granted.
pub proof fn written_is_new_and_claimed<T>(
    before: BackfillView<T>,
    after: BackfillView<T>,
    held_before: Set<Seq<char>>,
    held_now: Set<Seq<char>>,
    asked: Seq<(Seq<char>, bool)>,
    p: PreparedMessage<T>,
)
    requires
        replay_step(before, after, held_before, held_now, asked, Some(p)),
    ensures
        !before.existing.contains(p.dedupe_key@),
        asked.len() > 0,
        asked.last() == (p.dedupe_key@, true),
        held_now.contains(p.dedupe_key@),
{
    let passed = before.remaining.len() - after.remaining.len() - 1;
    let seen = before.remaining.take(passed + 1);
    assert(seen.last() == p);
    lemma_last_unknown_key(seen, before.existing);
    assert(keys_of(asked).len() == asked.len());
    assert(keys_of(asked).last() == asked.last().0);
}

/// A replay does not pass over a candidate that is not known to be stored and cannot have been
/// claimed: it writes that candidate, or one before it.
pub proof fn new_candidate_is_not_passed_over<T>(
    before: BackfillView<T>,
    after: BackfillView<T>,
    held_before: Set<Seq<char>>,
    held_now: Set<Seq<char>>,
    asked: Seq<(Seq<char>, bool)>,
    next: Option<PreparedMessage<T>>,
    k: int,
)
    requires
        keys_distinct(before.remaining),
        replay_step(before, after, held_before, held_now, asked, next),
        0 <= k < before.remaining.len(),
        !before.existing.contains(before.remaining[k].dedupe_key@),
        !held_before.contains(before.remaining[k].dedupe_key@),
    ensures
        next is Some,
        next->0 == before.remaining[k] || has_key(
            after.remaining,
            before.remaining[k].dedupe_key@,
        ),
{
    let key = before.remaining[k].dedupe_key@;
    let passed = match next {
        Some(_) => before.remaining.len() - after.remaining.len() - 1,
        None => before.remaining.len() as int,
    };
    let found = passed < before.remaining.len();
    let seen = before.remaining.take(
        if found {
            passed + 1
        } else {
            passed
        },
    );
    if passed > k {
        assert(seen[k] == before.remaining[k]);
        lemma_unknown_key_listed(seen, before.existing, k);
        let i = choose|i: int|
            0 <= i < unknown_keys(seen, before.existing).len() && unknown_keys(
                seen,
                before.existing,
            )[i] == key;
        assert(keys_of(asked)[i] == asked[i].0);
        if found && i == asked.len() - 1 {
            assert(seen.last() == before.remaining[passed]);
            lemma_last_unknown_key(seen, before.existing);
            assert(before.remaining[k].dedupe_key@ != before.remaining[passed].dedupe_key@);
        }
        assert(!asked[i].1);
        assert(held_before.contains(asked[i].0));
    } else if passed < k {
        assert(after.remaining[k - passed - 1] == before.remaining[k]);
    }
}

/// What a replay did when it was asked what to do.
pub ghost struct Turn<T, U> {
    /// Where it stood before.
    pub before: BackfillView<T>,
    /// What it was told.
    pub event: BackfillEvent<U>,
    /// Where it stood after.
    pub after: BackfillView<T>,
    /// The keys that may have been claimed before.
    pub held_before: Set<Seq<char>>,
    /// The keys that may have been claimed after.
    pub held_now: Set<Seq<char>>,
    /// What it asked for, and whether that was granted.
    pub asked: Seq<(Seq<char>, bool)>,
    /// What it said to do.
    pub action: BackfillAction<T>,
}

impl<T, U> Turn<T, U> {
    /// Where the replay stood once it was told what happened.
    pub open spec fn told(self) -> BackfillView<T> {
        recorded(self.before, self.event)
    }

    /// Whether the replay did what it does.
    pub open spec fn is_valid(self) -> bool {
        advances(
            self.told(),
            self.after,
            self.held_before,
            self.held_now,
            self.asked,
            self.action,
        )
    }

    /// Whether the replay was told about a message, among others, as an answer to a lookup.
    pub open spec fn finds(self, m: StructuredMessage<U>) -> bool {
        &&& !self.before.failed
        &&& self.before.ranges.len() > 0
        &&& self.event matches BackfillEvent::Found(messages)
        &&& messages@.contains(m)
    }

    /// Whether the replay asked for a key in vain.
    pub open spec fn denies(self, key: Seq<char>) -> bool {
        self.asked.contains((key, false)) && self.held_before.contains(key)
    }
}

/// Whether a turn starts where the one before it ended.
pub open spec fn follows<T, U>(turns: Seq<Turn<T, U>>, i: int) -> bool {
    turns[i].before == turns[i - 1].after
}

/// Whether some turns are those of one replay, from its first on. Between them others may claim and
/// release keys.
pub open spec fn is_history<T, U>(turns: Seq<Turn<T, U>>) -> bool {
    &&& forall|i: int| 0 <= i < turns.len() ==> (#[trigger] turns[i]).is_valid()
    &&& forall|i: int| 0 < i < turns.len() ==> #[trigger] follows(turns, i)
}

/// The last of some candidates keep their different, listed keys.
proof fn lemma_rest_ok<T>(before: BackfillView<T>, after: BackfillView<T>, n: int)
    requires
        candidates_ok(before),
        0 <= n <= before.remaining.len(),
        after.remaining == before.remaining.skip(n),
        after.keys == before.keys,
    ensures
        candidates_ok(after),
{
    let a = before.remaining;
    let b = after.remaining;
    assert forall|i: int, j: int| 0 <= i < j < b.len() implies (#[trigger] b[i]).dedupe_key@ != (
    #[trigger] b[j]).dedupe_key@ by {
        assert(a[n + i].dedupe_key@ != a[n + j].dedupe_key@);
    }
    assert forall|i: int| 0 <= i < b.len() implies after.keys.contains(
        (#[trigger] b[i]).dedupe_key@,
    ) by {
        assert(before.keys.contains(a[n + i].dedupe_key@));
    }
}

/// What a turn leaves of the candidates is the last of them, and what it writes comes just before.
proof fn lemma_turn_remaining<T, U>(t: Turn<T, U>)
    requires
        t.is_valid(),
    ensures
        t.after.remaining.len() <= t.before.remaining.len(),
        t.after.remaining == t.before.remaining.skip(
            t.before.remaining.len() - t.after.remaining.len(),
        ),
        t.action matches BackfillAction::Write(p) ==> t.after.remaining.len()
            < t.before.remaining.len() && p == t.before.remaining[t.before.remaining.len()
            - t.after.remaining.len() - 1],
{
    let a = t.before.remaining;
    assert(t.told().remaining == a);
    assert(a.skip(0) == a);
    assert(a.skip(a.len() as int) == Seq::<PreparedMessage<T>>::empty());
}

/// What a turn does to the rest of where a replay stands.
proof fn lemma_turn_knows<T, U>(t: Turn<T, U>)
    requires
        t.is_valid(),
    ensures
        t.after.keys == t.before.keys,
        t.before.existing.subset_of(t.told().existing),
        t.told().existing == t.after.existing,
        t.before.failed ==> t.after.failed,
        t.after.ranges.len() <= t.before.ranges.len(),
{
}

/// What holds of a replay after one turn, by what held before.
proof fn lemma_turn<T, U>(t: Turn<T, U>)
    requires
        t.is_valid(),
        candidates_ok(t.before),
    ensures
        candidates_ok(t.after),
        t.after.keys == t.before.keys,
        t.before.existing.subset_of(t.told().existing),
        t.told().existing == t.after.existing,
        t.before.failed ==> t.after.failed,
        t.after.ranges.len() <= t.before.ranges.len(),
        t.after.remaining.len() <= t.before.remaining.len(),
        t.after.remaining == t.before.remaining.skip(
            t.before.remaining.len() - t.after.remaining.len(),
        ),
        t.action matches BackfillAction::Write(p) ==> t.after.remaining.len()
            < t.before.remaining.len() && p == t.before.remaining[t.before.remaining.len()
            - t.after.remaining.len() - 1],
{
    lemma_turn_remaining(t);
    lemma_turn_knows(t);
    lemma_rest_ok(t.before, t.after, t.before.remaining.len() - t.after.remaining.len());
}

/// What holds of a replay before a later turn, by where it stood after an earlier one.
proof fn lemma_history<T, U>(turns: Seq<Turn<T, U>>, i: int, j: int)
    requires
        is_history(turns),
        candidates_ok(turns[0].before),
        0 <= i <= j < turns.len(),
    ensures
        candidates_ok(turns[j].before),
        turns[j].before.keys == turns[i].before.keys,
        turns[i].before.existing.subset_of(turns[j].before.existing),
        turns[i].before.failed ==> turns[j].before.failed,
        turns[j].before.ranges.len() <= turns[i].before.ranges.len(),
        turns[j].before.remaining.len() <= turns[i].before.remaining.len(),
        turns[j].before.remaining == turns[i].before.remaining.skip(
            turns[i].before.remaining.len() - turns[j].before.remaining.len(),
        ),
    decreases j,
{
    let first = turns[i].before.remaining;
    if i == j {
        if j > 0 {
            lemma_history(turns, 0, j - 1);
            assert(turns[j - 1].is_valid());
            lemma_turn(turns[j - 1]);
            assert(follows(turns, j));
        }
        assert(first.skip(0) == first);
    } else {
        lemma_history(turns, i, j - 1);
        assert(turns[j - 1].is_valid());
        lemma_turn(turns[j - 1]);
        assert(follows(turns, j));
        let middle = turns[j - 1].before.remaining;
        let last = turns[j].before.remaining;
        assert(first.skip(first.len() - middle.len()).skip(middle.len() - last.len())
            == first.skip(first.len() - last.len()));
    }
}

/// A replay writes no key twice.
pub proof fn history_writes_each_key_once<T, U>(
    turns: Seq<Turn<T, U>>,
    i: int,
    j: int,
    p: PreparedMessage<T>,
    q: PreparedMessage<T>,
)
    requires
        is_history(turns),
        candidates_ok(turns[0].before),
        0 <= i < j < turns.len(),
        turns[i].action == BackfillAction::Write(p),
        turns[j].action == BackfillAction::Write(q),
    ensures
        p.dedupe_key@ != q.dedupe_key@,
{
    lemma_history(turns, 0, i);
    lemma_history(turns, i + 1, j);
    assert(turns[i].is_valid() && turns[j].is_valid());
    assert(follows(turns, i + 1));
    lemma_turn(turns[i]);
    lemma_turn(turns[j]);
    let a = turns[i].before.remaining;
    let b = turns[i].after.remaining;
    let c = turns[j].before.remaining;
    let d = turns[j].after.remaining;
    let at = a.len() - b.len() - 1;
    let later = c.len() - d.len() - 1;
    assert(c[later] == b[b.len() - c.len() + later]);
    assert(b[b.len() - c.len() + later] == a[at + 1 + b.len() - c.len() + later]);
    assert(a[at].dedupe_key@ != a[at + 1 + b.len() - c.len() + later].dedupe_key@);
}

/// Whether two messages come one before the other in a list.
pub open spec fn comes_before<T>(
    messages: Seq<PreparedMessage<T>>,
    p: PreparedMessage<T>,
    q: PreparedMessage<T>,
) -> bool {
    exists|a: int, b: int|
        0 <= a < b < messages.len() && #[trigger] messages[a] == p && #[trigger] messages[b] == q
}

/// A replay writes candidates, in their order.
pub proof fn history_writes_in_order<T, U>(
    turns: Seq<Turn<T, U>>,
    i: int,
    j: int,
    p: PreparedMessage<T>,
    q: PreparedMessage<T>,
)
    requires
        is_history(turns),
        candidates_ok(turns[0].before),
        0 <= i < j < turns.len(),
        turns[i].action == BackfillAction::Write(p),
        turns[j].action == BackfillAction::Write(q),
    ensures
        comes_before(turns[0].before.remaining, p, q),
{
    lemma_history(turns, 0, i);
    lemma_history(turns, 0, j);
    lemma_history(turns, i + 1, j);
    assert(turns[i].is_valid() && turns[j].is_valid());
    assert(follows(turns, i + 1));
    lemma_turn(turns[i]);
    lemma_turn(turns[j]);
    let all = turns[0].before.remaining;
    let first = all.len() - turns[i].after.remaining.len() - 1;
    let second = all.len() - turns[j].after.remaining.len() - 1;
    assert(all[first] == p);
    assert(all[second] == q);
}

/// A replay writes nothing that a lookup found.
pub proof fn found_is_never_written<T, U>(
    turns: Seq<Turn<T, U>>,
    i: int,
    j: int,
    m: StructuredMessage<U>,
    p: PreparedMessage<T>,
)
    requires
        is_history(turns),
        candidates_ok(turns[0].before),
        0 <= i <= j < turns.len(),
        turns[i].finds(m),
        turns[j].action == BackfillAction::Write(p),
    ensures
        p.dedupe_key@ != m.identity(),
{
    let s = turns[i].before;
    let key = p.dedupe_key@;
    lemma_history(turns, 0, i);
    lemma_history(turns, i, j);
    assert(turns[i].is_valid() && turns[j].is_valid());
    lemma_turn(turns[i]);
    lemma_turn(turns[j]);
    if i < j {
        lemma_history(turns, i + 1, j);
        assert(follows(turns, i + 1));
    }
    assert(s.keys.contains(key));
    if key == m.identity() {
        let messages = turns[i].event->Found_0@;
        let k = choose|k: int| 0 <= k < messages.len() && messages[k] == m;
        assert(messages[k].identity() == key);
        assert(known_keys(messages, s.keys).contains(key));
        assert(turns[i].told().existing.contains(key));
        assert(turns[j].told().existing.contains(key));
    }
}

/// Once a replay wrote something it looks nothing up any more.
pub proof fn lookups_precede_writes<T, U>(turns: Seq<Turn<T, U>>, i: int, j: int)
    requires
        is_history(turns),
        candidates_ok(turns[0].before),
        0 <= i <= j < turns.len(),
        turns[i].action is Write,
    ensures
        turns[j].action !is LookUp,
{
    lemma_history(turns, 0, i);
    assert(turns[i].is_valid() && turns[j].is_valid());
    if i < j {
        lemma_turn(turns[i]);
        lemma_history(turns, i + 1, j);
        assert(follows(turns, i + 1));
    }
}

/// Once a lookup failed a replay writes nothing, looks nothing up and claims nothing any more.
pub proof fn failure_is_final<T, U>(turns: Seq<Turn<T, U>>, i: int, j: int)
    requires
        is_history(turns),
        candidates_ok(turns[0].before),
        0 <= i <= j < turns.len(),
        turns[i].event is LookupFailed,
    ensures
        turns[j].action is Failed,
        turns[j].asked.len() == 0,
        turns[j].held_now == turns[j].held_before,
{
    lemma_history(turns, 0, i);
    assert(turns[i].is_valid() && turns[j].is_valid());
    if i < j {
        lemma_turn(turns[i]);
        lemma_history(turns, i + 1, j);
        assert(follows(turns, i + 1));
    }
}

/// Whether a lookup found a message with a key, in the first of some turns.
pub open spec fn was_found<T, U>(turns: Seq<Turn<T, U>>, n: int, key: Seq<char>) -> bool {
    exists|i: int, m: StructuredMessage<U>|
        0 <= i < n && m.identity() == key && #[trigger] turns[i].finds(m)
}

/// What a replay knows to be stored is exactly what its lookups found among the keys of its
/// candidates.
pub proof fn known_is_what_was_found<T, U>(turns: Seq<Turn<T, U>>, n: int, key: Seq<char>)
    requires
        is_history(turns),
        0 <= n < turns.len(),
        turns[0].before.existing == Set::<Seq<char>>::empty(),
    ensures
        turns[n].told().existing.contains(key) <==> turns[0].before.keys.contains(key)
            && was_found(turns, n + 1, key),
        turns[n].after.existing == turns[n].told().existing,
        turns[n].before.keys == turns[0].before.keys,
    decreases n,
{
    let t = turns[n];
    let all = turns[0].before.keys;
    assert(t.is_valid());
    lemma_turn_knows(t);
    if n > 0 {
        known_is_what_was_found(turns, n - 1, key);
        assert(turns[n - 1].is_valid());
        lemma_turn_knows(turns[n - 1]);
        assert(follows(turns, n));
    }
    assert(t.before.existing.contains(key) <==> all.contains(key) && was_found(turns, n, key));
    if was_found(turns, n + 1, key) {
        let (i, m) = choose|i: int, m: StructuredMessage<U>|
            0 <= i < n + 1 && m.identity() == key && #[trigger] turns[i].finds(m);
        if i < n {
            assert(turns[i].finds(m));
            assert(was_found(turns, n, key));
        } else if all.contains(key) {
            let messages = t.event->Found_0@;
            let k = choose|k: int| 0 <= k < messages.len() && messages[k] == m;
            assert(messages[k].identity() == key);
            assert(known_keys(messages, all).contains(key));
        }
    }
    if was_found(turns, n, key) {
        let (i, m) = choose|i: int, m: StructuredMessage<U>|
            0 <= i < n && m.identity() == key && #[trigger] turns[i].finds(m);
        assert(turns[i].finds(m));
    }
    if t.told().existing.contains(key) && !t.before.existing.contains(key) {
        let messages = t.event->Found_0@;
        assert(known_keys(messages, all).contains(key));
        let k = choose|k: int|
            0 <= k < messages.len() && (#[trigger] messages[k]).identity() == key;
        assert(turns[n].finds(messages[k]));
    }
}

/// Whether a replay has dealt with a candidate in the first of its turns: it was found, it was asked
/// for in vain, or it was written.
pub open spec fn dealt_with<T, U>(turns: Seq<Turn<T, U>>, n: int, p: PreparedMessage<T>) -> bool {
    ||| was_found(turns, n, p.dedupe_key@)
    ||| exists|i: int| 0 <= i < n && (#[trigger] turns[i]).denies(p.dedupe_key@)
    ||| exists|i: int| 0 <= i < n && (#[trigger] turns[i]).action == BackfillAction::Write(p)
}

/// A candidate that a turn takes off the list is dealt with in that turn.
proof fn lemma_turn_deals_with<T, U>(t: Turn<T, U>, k: int)
    requires
        t.is_valid(),
        0 <= k < t.before.remaining.len() - t.after.remaining.len(),
    ensures
        ({
            let p = t.before.remaining[k];
            ||| t.after.existing.contains(p.dedupe_key@)
            ||| t.denies(p.dedupe_key@)
            ||| t.action == BackfillAction::Write(p)
        }),
{
    let s = t.told();
    let p = s.remaining[k];
    let key = p.dedupe_key@;
    let n = s.remaining.len() - t.after.remaining.len();
    let passed = if t.action is Write {
        n - 1
    } else {
        n
    };
    assert(passes(s.remaining, s.existing, t.asked, passed));
    if k < passed && !s.existing.contains(key) {
        let seen = s.remaining.take(n);
        assert(seen.take(passed) == s.remaining.take(passed));
        let keys = unknown_keys(s.remaining.take(passed), s.existing);
        assert(s.remaining.take(passed)[k] == p);
        lemma_unknown_key_listed(s.remaining.take(passed), s.existing, k);
        let i = choose|i: int| 0 <= i < keys.len() && keys[i] == key;
        if t.action is Write {
            assert(seen.drop_last() == s.remaining.take(passed));
            assert(unknown_keys(seen, s.existing) == keys.push(seen.last().dedupe_key@));
        }
        assert(keys_of(t.asked).len() == t.asked.len());
        assert(keys_of(t.asked)[i] == t.asked[i].0);
        assert(t.asked[i].0 == key);
        assert(!t.asked[i].1);
        assert(t.asked[i] == (key, false));
    }
}

/// When a replay is done, every candidate was found to be stored, or had been claimed by another, or
/// was written.
pub proof fn done_replay_dealt_with_all<T, U>(turns: Seq<Turn<T, U>>, n: int, k: int)
    requires
        is_history(turns),
        candidates_ok(turns[0].before),
        turns[0].before.existing == Set::<Seq<char>>::empty(),
        0 < n <= turns.len(),
        turns[n - 1].action is Done,
        0 <= k < turns[0].before.remaining.len(),
    ensures
        dealt_with(turns, n, turns[0].before.remaining[k]),
{
    assert(turns[n - 1].is_valid());
    lemma_dealt_with(turns, n, k);
}

/// A candidate that is off the list was dealt with.
proof fn lemma_dealt_with<T, U>(turns: Seq<Turn<T, U>>, n: int, k: int)
    requires
        is_history(turns),
        candidates_ok(turns[0].before),
        turns[0].before.existing == Set::<Seq<char>>::empty(),
        0 < n <= turns.len(),
        0 <= k < turns[0].before.remaining.len() - turns[n - 1].after.remaining.len(),
    ensures
        dealt_with(turns, n, turns[0].before.remaining[k]),
    decreases n,
{
    let all = turns[0].before.remaining;
    let t = turns[n - 1];
    lemma_history(turns, 0, n - 1);
    assert(t.is_valid());
    lemma_turn(t);
    let gone = all.len() - t.before.remaining.len();
    if k < gone {
        assert(n > 1);
        assert(follows(turns, n - 1));
        lemma_dealt_with(turns, n - 1, k);
        let key = all[k].dedupe_key@;
        if was_found(turns, n - 1, key) {
            let (i, m) = choose|i: int, m: StructuredMessage<U>|
                0 <= i < n - 1 && m.identity() == key && #[trigger] turns[i].finds(m);
            assert(turns[i].finds(m));
        }
    } else {
        lemma_turn_deals_with(t, k - gone);
        assert(t.before.remaining[k - gone] == all[k]);
        known_is_what_was_found(turns, n - 1, all[k].dedupe_key@);
    }
}

/// A replay writes nothing when all that it asks for is denied.
pub proof fn denied_replay_writes_nothing<T, U>(turns: Seq<Turn<T, U>>, j: int)
    requires
        is_history(turns),
        0 <= j < turns.len(),
        forall|a: (Seq<char>, bool)| #[trigger] turns[j].asked.contains(a) ==> !a.1,
    ensures
        turns[j].action !is Write,
{
    let t = turns[j];
    assert(t.is_valid());
    if let BackfillAction::Write(p) = t.action {
        written_is_new_and_claimed(t.told(), t.after, t.held_before, t.held_now, t.asked, p);
        assert(t.asked.contains(t.asked.last()));
    }
}

/// Whether a replay asked for a key.
pub open spec fn has_asked<T, U>(turns: Seq<Turn<T, U>>, key: Seq<char>) -> bool {
    exists|i: int, granted: bool|
        0 <= i < turns.len() && #[trigger] turns[i].asked.contains((key, granted))
}

/// A replay writes nothing that another, which is done and had the same candidates, dealt with, while
/// the claims of that other last, and what it found to be stored is found again.
pub proof fn second_replay_writes_nothing<T, U>(
    first: Seq<Turn<T, U>>,
    second: Seq<Turn<T, U>>,
    j: int,
)
    requires
        is_history(first),
        is_history(second),
        first.len() > 0,
        first.last().action is Done,
        candidates_ok(first[0].before),
        candidates_ok(second[0].before),
        forall|k: int|
            0 <= k < second[0].before.remaining.len() ==> has_key(
                first[0].before.remaining,
                (#[trigger] second[0].before.remaining[k]).dedupe_key@,
            ),
        0 <= j < second.len(),
        first[0].before.existing == Set::<Seq<char>>::empty(),
        second[0].before.existing == Set::<Seq<char>>::empty(),
        forall|key: Seq<char>| #[trigger]
            was_found(first, first.len() as int, key) ==> was_found(second, j + 1, key),
        forall|a: (Seq<char>, bool)| #[trigger]
            second[j].asked.contains(a) && has_asked(first, a.0) ==> !a.1,
    ensures
        second[j].action !is Write,
{
    let t = second[j];
    assert(t.is_valid());
    if let BackfillAction::Write(p) = t.action {
        let key = p.dedupe_key@;
        written_is_new_and_claimed(t.told(), t.after, t.held_before, t.held_now, t.asked, p);
        assert(t.asked.contains((key, true)));
        lemma_history(second, 0, j);
        lemma_turn(t);
        let all = second[0].before.remaining;
        let now = t.before.remaining;
        let at = now.len() - t.after.remaining.len() - 1;
        assert(now[at] == all[all.len() - now.len() + at]);
        let before = first[0].before.remaining;
        assert(has_key(before, key));
        let k = choose|k: int| 0 <= k < before.len() && (#[trigger] before[k]).dedupe_key@ == key;
        let n = first.len() as int;
        done_replay_dealt_with_all(first, n, k);
        let q = before[k];
        if exists|i: int| 0 <= i < n && (#[trigger] first[i]).denies(key) {
            let i = choose|i: int| 0 <= i < n && (#[trigger] first[i]).denies(key);
            assert(first[i].asked.contains((key, false)));
            assert(has_asked(first, key));
        } else if was_found(first, n, key) {
            known_is_what_was_found(second, j, key);
            assert(second[0].before.keys.contains(key));
        } else {
            let i = choose|i: int|
                0 <= i < n && (#[trigger] first[i]).action == BackfillAction::Write(q);
            let w = first[i];
            assert(w.is_valid());
            written_is_new_and_claimed(w.told(), w.after, w.held_before, w.held_now, w.asked, q);
            assert(first[i].asked.contains((key, true)));
            assert(has_asked(first, key));
        }
    }
}

/// A replay fails exactly from the first failed lookup on.
pub proof fn failure_needs_a_failed_lookup<T, U>(turns: Seq<Turn<T, U>>, n: int)
    requires
        is_history(turns),
        0 <= n < turns.len(),
        !turns[0].before.failed,
    ensures
        turns[n].action is Failed <==> exists|i: int|
            0 <= i <= n && (#[trigger] turns[i]).event is LookupFailed,
        turns[n].after.failed <==> turns[n].action is Failed,
    decreases n,
{
    let t = turns[n];
    assert(t.is_valid());
    if n > 0 {
        failure_needs_a_failed_lookup(turns, n - 1);
        assert(follows(turns, n));
        if turns[n - 1].action is Failed {
            let i = choose|i: int|
                0 <= i <= n - 1 && (#[trigger] turns[i]).event is LookupFailed;
            assert(turns[i].event is LookupFailed);
        }
    }
    if exists|i: int| 0 <= i <= n && (#[trigger] turns[i]).event is LookupFailed {
        let i = choose|i: int| 0 <= i <= n && (#[trigger] turns[i]).event is LookupFailed;
        if i < n {
            assert(turns[i].event is LookupFailed);
        }
    }
    if t.event is LookupFailed {
        assert(turns[n].event is LookupFailed);
    }
}

/// A replay that did not fail looks up as long as spans are left, and then writes or is done; each
/// answer takes one span off.
pub proof fn replay_goes_on<T, U>(t: Turn<T, U>)
    requires
        t.is_valid(),
        !t.before.failed,
        t.event !is LookupFailed,
    ensures
        t.action is LookUp <==> t.after.ranges.len() > 0,
        t.action is Write || t.action is Done <==> t.after.ranges.len() == 0,
        t.event is Found && t.before.ranges.len() > 0 ==> t.after.ranges.len()
            == t.before.ranges.len() - 1,
        t.event is Proceed ==> t.after.ranges == t.before.ranges,
        t.action is Done ==> t.after.remaining.len() == 0,
        t.after.malformed == t.before.malformed,
{
}

/// A replay claims nothing but the keys of its candidates that are not known to be stored.
pub proof fn only_new_candidates_are_claimed<T, U>(t: Turn<T, U>, i: int)
    requires
        t.is_valid(),
        0 <= i < t.asked.len(),
    ensures
        has_key(t.before.remaining, t.asked[i].0),
        !t.told().existing.contains(t.asked[i].0),
        t.asked[i].1 ==> i == t.asked.len() - 1 && (t.action matches BackfillAction::Write(p)
            && p.dedupe_key@ == t.asked[i].0),
        t.held_now.contains(t.asked[i].0),
{
    let s = t.told();
    let passed = match t.action {
        BackfillAction::Write(_) => s.remaining.len() - t.after.remaining.len() - 1,
        _ => s.remaining.len() as int,
    };
    let found = passed < s.remaining.len();
    let seen = s.remaining.take(
        if found {
            passed + 1
        } else {
            passed
        },
    );
    let key = t.asked[i].0;
    assert(passes(s.remaining, s.existing, t.asked, passed));
    assert(keys_of(t.asked)[i] == key);
    lemma_unknown_keys(seen, s.existing, i);
    lemma_unknown_keys_are_unknown(seen, s.existing, i);
    let k = choose|k: int| 0 <= k < seen.len() && (#[trigger] seen[k]).dedupe_key@ == key;
    assert(s.remaining[k] == seen[k]);
    if t.asked[i].1 {
        if let BackfillAction::Write(p) = t.action {
            assert(seen.last() == p);
            lemma_last_unknown_key(seen, s.existing);
        }
    }
    held_after_is_held_or_asked(t.held_before, t.asked, key);
}

/// Keys that are listed as unknown are not in the set.
proof fn lemma_unknown_keys_are_unknown<T>(
    messages: Seq<PreparedMessage<T>>,
    existing: Set<Seq<char>>,
    i: int,
)
    requires
        0 <= i < unknown_keys(messages, existing).len(),
    ensures
        !existing.contains(unknown_keys(messages, existing)[i]),
    decreases messages.len(),
{
    if messages.len() > 0 {
        let before = messages.drop_last();
        if i < unknown_keys(before, existing).len() {
            lemma_unknown_keys_are_unknown(before, existing, i);
        }
    }
}

} // verus!

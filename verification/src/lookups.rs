//! What a replay looks up, from its first turn to its last.
use crate::backfill::{
    candidates_of, follows, found_is_never_written, in_a_span, is_history, is_new_replay,
    spans_reach_from_earliest_to_latest, BackfillAction, BackfillEvent, ChannelRange, LineOutcome,
    Turn,
};
use crate::message::StructuredMessage;
use vstd::prelude::*;

verus! {

/// Whether what a replay is told at a turn answers a lookup that it asked for just before, if it is
/// told about one at all.
pub open spec fn answers_a_lookup<T, U>(turns: Seq<Turn<T, U>>, i: int) -> bool {
    turns[i].event is Found ==> i > 0 && turns[i - 1].action is LookUp
}

/// Whether a replay is told about lookups only when it asked for them.
pub open spec fn answers_lookups<T, U>(turns: Seq<Turn<T, U>>) -> bool {
    forall|i: int| 0 <= i < turns.len() ==> #[trigger] answers_a_lookup(turns, i)
}

/// Whether a replay asked for a span at a turn, and was told at the next what it holds.
pub open spec fn is_answered<T, U>(turns: Seq<Turn<T, U>>, i: int, range: ChannelRange) -> bool {
    &&& turns[i].action == BackfillAction::<T>::LookUp(range)
    &&& turns[i + 1].event is Found
    &&& !turns[i + 1].before.failed
    &&& turns[i + 1].before.ranges.len() > 0
}

/// Whether a replay asked for a span before a turn, and was told what it holds.
pub open spec fn was_answered<T, U>(turns: Seq<Turn<T, U>>, n: int, range: ChannelRange) -> bool {
    exists|i: int| 0 <= i < n && #[trigger] is_answered(turns, i, range)
}

/// The spans that are left are the first of all; each of the others was asked for and answered.
proof fn lemma_spans_left<T, U>(turns: Seq<Turn<T, U>>, n: int)
    requires
        is_history(turns),
        answers_lookups(turns),
        0 <= n < turns.len(),
    ensures
        turns[n].told().ranges.len() <= turns[0].before.ranges.len(),
        turns[n].told().ranges == turns[0].before.ranges.take(
            turns[n].told().ranges.len() as int,
        ),
        forall|k: int|
            turns[n].told().ranges.len() <= k < turns[0].before.ranges.len() ==> was_answered(
                turns,
                n,
                #[trigger] turns[0].before.ranges[k],
            ),
    decreases n,
{
    let all = turns[0].before.ranges;
    let t = turns[n];
    assert(answers_a_lookup(turns, n));
    if n == 0 {
        assert(t.told().ranges == all);
        assert(all.take(all.len() as int) =~= all);
    } else {
        lemma_spans_left(turns, n - 1);
        let before = turns[n - 1];
        assert(before.is_valid());
        assert(follows(turns, n));
        assert(t.before.ranges == before.told().ranges);
        let m = t.before.ranges.len() as int;
        if t.told().ranges.len() < m {
            assert(t.told().ranges =~= all.take(m - 1));
            assert(before.action == BackfillAction::<T>::LookUp(before.told().ranges.last()));
            assert(is_answered(turns, n - 1, all[m - 1]));
        }
        assert forall|k: int| t.told().ranges.len() <= k < all.len() implies was_answered(
            turns,
            n,
            #[trigger] all[k],
        ) by {
            if k >= m {
                assert(was_answered(turns, n - 1, all[k]));
                let i = choose|i: int| 0 <= i < n - 1 && #[trigger] is_answered(turns, i, all[k]);
                assert(is_answered(turns, i, all[k]));
            }
        }
    }
}

/// Before a replay of some lines writes anything, or is done, it has told to look up a span that
/// holds the channel and the time of each candidate, and was told what is there.
proof fn lemma_looked_up<T, U>(
    turns: Seq<Turn<T, U>>,
    lines: Seq<LineOutcome<T>>,
    n: int,
    k: int,
) -> (i: int)
    requires
        is_history(turns),
        answers_lookups(turns),
        is_new_replay(turns[0].before, lines),
        0 <= n < turns.len(),
        turns[n].action is Write || turns[n].action is Done,
        0 <= k < candidates_of(lines).len(),
    ensures
        0 <= i < n,
        turns[i].action is LookUp,
        is_answered(turns, i, turns[i].action->LookUp_0),
        turns[i].action->LookUp_0.spans(candidates_of(lines)[k]),
{
    let all = turns[0].before.ranges;
    let p = candidates_of(lines)[k];
    assert(turns[n].is_valid());
    lemma_spans_left(turns, n);
    assert(in_a_span(all, p));
    let j = choose|j: int| 0 <= j < all.len() && (#[trigger] all[j]).spans(p);
    assert(was_answered(turns, n, all[j]));
    let i = choose|i: int| 0 <= i < n && #[trigger] is_answered(turns, i, all[j]);
    i
}

/// What a replay of some lines tells to look up covers every candidate before anything is written, and
/// before it is done: for each there is an earlier turn at which a span of its channel, with its time
/// in it, was to be looked up.
pub proof fn every_candidate_is_looked_up<T, U>(
    turns: Seq<Turn<T, U>>,
    lines: Seq<LineOutcome<T>>,
    n: int,
    k: int,
)
    requires
        is_history(turns),
        answers_lookups(turns),
        is_new_replay(turns[0].before, lines),
        0 <= n < turns.len(),
        turns[n].action is Write || turns[n].action is Done,
        0 <= k < candidates_of(lines).len(),
    ensures
        exists|i: int|
            0 <= i < n && ((#[trigger] turns[i]).action matches BackfillAction::LookUp(range)
                && range.channel_id@ == candidates_of(lines)[k].message.channel_id@
                && range.from_millis <= candidates_of(lines)[k].message.timestamp
                <= range.to_millis),
{
    let i = lemma_looked_up(turns, lines, n, k);
    assert(turns[i].action is LookUp);
}

/// What a replay tells to look up is one of its spans.
proof fn lemma_is_a_span<T, U>(turns: Seq<Turn<T, U>>, n: int, range: ChannelRange) -> (j: int)
    requires
        is_history(turns),
        answers_lookups(turns),
        0 <= n < turns.len(),
        turns[n].action == BackfillAction::<T>::LookUp(range),
    ensures
        0 <= j < turns[0].before.ranges.len(),
        turns[0].before.ranges[j] == range,
{
    assert(turns[n].is_valid());
    lemma_spans_left(turns, n);
    let left = turns[n].told().ranges;
    assert(left.len() > 0 && left.last() == range);
    left.len() - 1
}

/// What a replay of some lines tells to look up is, for a channel of a candidate, the time from the
/// earliest to the latest candidate of that channel.
pub proof fn lookups_are_exact<T, U>(
    turns: Seq<Turn<T, U>>,
    lines: Seq<LineOutcome<T>>,
    n: int,
    range: ChannelRange,
)
    requires
        is_history(turns),
        answers_lookups(turns),
        is_new_replay(turns[0].before, lines),
        0 <= n < turns.len(),
        turns[n].action == BackfillAction::<T>::LookUp(range),
    ensures
        ({
            let all = candidates_of(lines);
            &&& forall|i: int|
                0 <= i < all.len() && (#[trigger] all[i]).message.channel_id@ == range.channel_id@
                    ==> range.from_millis <= all[i].message.timestamp <= range.to_millis
            &&& exists|i: int|
                0 <= i < all.len() && (#[trigger] all[i]).message.channel_id@ == range.channel_id@
                    && all[i].message.timestamp == range.from_millis
            &&& exists|i: int|
                0 <= i < all.len() && (#[trigger] all[i]).message.channel_id@ == range.channel_id@
                    && all[i].message.timestamp == range.to_millis
        }),
{
    let j = lemma_is_a_span(turns, n, range);
    spans_reach_from_earliest_to_latest(turns[0].before.ranges, candidates_of(lines), j);
}

/// Whether a message lies in a span, by its channel and its time.
pub open spec fn lies_in<U>(m: StructuredMessage<U>, range: ChannelRange) -> bool {
    m.channel_id@ == range.channel_id@ && range.from_millis <= m.timestamp <= range.to_millis
}

/// Whether a replay that asks for a span is told about a stored message, if the message lies in the
/// span and the replay is told anything.
pub open spec fn is_told_of<T, U>(
    turns: Seq<Turn<T, U>>,
    i: int,
    stored: StructuredMessage<U>,
) -> bool {
    turns[i].action matches BackfillAction::LookUp(range) ==> (lies_in(stored, range) ==> (
    turns[i + 1].event matches BackfillEvent::Found(messages) ==> messages@.contains(stored)))
}

/// A message that is stored already is not stored again: if lookups tell of what is stored in their
/// span, a replay of some lines never writes a candidate of the same identity, channel and time.
pub proof fn stored_messages_are_not_stored_again<T, U>(
    turns: Seq<Turn<T, U>>,
    lines: Seq<LineOutcome<T>>,
    stored: StructuredMessage<U>,
    n: int,
    k: int,
)
    requires
        is_history(turns),
        answers_lookups(turns),
        is_new_replay(turns[0].before, lines),
        forall|i: int| 0 <= i < turns.len() - 1 ==> #[trigger] is_told_of(turns, i, stored),
        0 <= n < turns.len(),
        0 <= k < candidates_of(lines).len(),
        candidates_of(lines)[k].dedupe_key@ == stored.identity(),
        candidates_of(lines)[k].message.channel_id@ == stored.channel_id@,
        candidates_of(lines)[k].message.timestamp == stored.timestamp,
    ensures
        turns[n].action matches BackfillAction::Write(p) ==> p.dedupe_key@ != stored.identity(),
{
    if let BackfillAction::Write(p) = turns[n].action {
        let i = lemma_looked_up(turns, lines, n, k);
        assert(is_told_of(turns, i, stored));
        assert(lies_in(stored, turns[i].action->LookUp_0));
        assert(turns[i + 1].finds(stored));
        found_is_never_written(turns, i + 1, n, stored, p);
    }
}

} // verus!

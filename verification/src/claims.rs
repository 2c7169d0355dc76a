//! Claims on keys that lapse by themselves.
use moka::sync::Cache;
use vstd::prelude::*;

verus! {

/// The most seconds that a claim can be made to last: a thousand years.
pub const MAX_CLAIM_SECONDS: u64 = 31_536_000_000;

/// A concurrent cache whose entries expire.
#[verifier::external_type_specification]
#[verifier::external_body]
#[verifier::reject_recursive_types(K)]
#[verifier::reject_recursive_types(V)]
#[verifier::reject_recursive_types(S)]
pub struct ExCache<K, V, S>(Cache<K, V, S>);

/// The keys that a cache may hold: those that were put in and not taken out since. Some of them may
/// have expired, or have been evicted to make room.
pub uninterp spec fn cache_may_hold(cache: Cache<String, ()>) -> Set<Seq<char>>;

/// The policy that a cache was made with: how many seconds an entry lives, and how many entries the
/// cache keeps.
pub uninterp spec fn cache_policy(cache: Cache<String, ()>) -> (u64, u64);

/// What a cache answered so far, in order: the keys that were put in, each with whether the entry was
/// fresh.
pub uninterp spec fn cache_answers(cache: Cache<String, ()>) -> Seq<(Seq<char>, bool)>;

/// `Cache::builder`, with `time_to_live` and `max_capacity`: an empty cache with this policy, which
/// answered nothing yet. `build` panics if entries are to live longer than a thousand years. When
/// entries expire or are evicted under the policy is left unsaid.
#[verifier::external_body]
fn cache_new(ttl_seconds: u64, capacity: u64) -> (cache: Cache<String, ()>)
    requires
        ttl_seconds <= MAX_CLAIM_SECONDS,
    ensures
        cache_may_hold(cache) == Set::<Seq<char>>::empty(),
        cache_policy(cache) == (ttl_seconds, capacity),
        cache_answers(cache) == Seq::<(Seq<char>, bool)>::empty(),
{
    Cache::builder()
        .time_to_live(std::time::Duration::from_secs(ttl_seconds))
        .max_capacity(capacity)
        .build()
}

/// `or_insert_with` on `Cache::entry`, and `is_fresh` on the entry that it returns: the key is put
/// in, and the entry is fresh if the cache did not hold the key. Whether an entry that was put in
/// earlier is still held depends on the time and on what else was put in, and is left unsaid. The
/// answer is the next of the cache's answers. The policy of a cache stays as it was made.
#[verifier::external_body]
fn cache_insert(cache: &mut Cache<String, ()>, key: &str) -> (fresh: bool)
    ensures
        !cache_may_hold(*old(cache)).contains(key@) ==> fresh,
        cache_may_hold(*final(cache)) == cache_may_hold(*old(cache)).insert(key@),
        cache_policy(*final(cache)) == cache_policy(*old(cache)),
        cache_answers(*final(cache)) == cache_answers(*old(cache)).push((key@, fresh)),
{
    cache.entry(key.to_owned()).or_insert_with(|| ()).is_fresh()
}

/// `Cache::invalidate`: the key is taken out. Nothing is answered, and the policy of the cache stays
/// as it was made.
#[verifier::external_body]
fn cache_remove(cache: &mut Cache<String, ()>, key: &str)
    ensures
        cache_may_hold(*final(cache)) == cache_may_hold(*old(cache)).remove(key@),
        cache_policy(*final(cache)) == cache_policy(*old(cache)),
        cache_answers(*final(cache)) == cache_answers(*old(cache)),
{
    cache.invalidate(key)
}

/// The keys that may be claimed once some more keys were asked for.
pub open spec fn held_after(
    held: Set<Seq<char>>,
    asked: Seq<(Seq<char>, bool)>,
) -> Set<Seq<char>>
    decreases asked.len(),
{
    if asked.len() == 0 {
        held
    } else {
        held_after(held, asked.drop_last()).insert(asked.last().0)
    }
}

/// A key that may be claimed at last may have been claimed at first, or was asked for.
pub proof fn lemma_held_after(held: Set<Seq<char>>, asked: Seq<(Seq<char>, bool)>, key: Seq<char>)
    requires
        held_after(held, asked).contains(key),
    ensures
        held.contains(key) || exists|i: int| 0 <= i < asked.len() && (#[trigger] asked[i]).0 == key,
    decreases asked.len(),
{
    if asked.len() > 0 {
        if asked.last().0 == key {
            assert(asked[asked.len() - 1].0 == key);
        } else {
            let before = asked.drop_last();
            lemma_held_after(held, before, key);
            if !held.contains(key) {
                let i = choose|i: int| 0 <= i < before.len() && (#[trigger] before[i]).0 == key;
                assert(asked[i] == before[i]);
            }
        }
    }
}

/// Keys that are claimed until their claim lapses or is released.
pub struct ClaimTable {
    cache: Cache<String, ()>,
}

impl ClaimTable {
    /// The keys that may be claimed: those that were claimed and not released since. Claims on some
    /// of them may have lapsed.
    pub closed spec fn may_hold(&self) -> Set<Seq<char>> {
        cache_may_hold(self.cache)
    }

    /// The keys that were asked for so far, each with whether the claim was granted: what the cache
    /// answered.
    pub closed spec fn answers(&self) -> Seq<(Seq<char>, bool)> {
        cache_answers(self.cache)
    }

    /// After how many seconds a claim lapses, and how many claims there is room for.
    pub closed spec fn policy(&self) -> (u64, u64) {
        cache_policy(self.cache)
    }

    /// Whether a table is what another becomes when a key is claimed, and the claim is granted or
    /// not.
    pub open spec fn asked(&self, before: &ClaimTable, key: Seq<char>, granted: bool) -> bool {
        &&& !before.may_hold().contains(key) ==> granted
        &&& self.may_hold() == before.may_hold().insert(key)
        &&& self.answers() == before.answers().push((key, granted))
        &&& self.policy() == before.policy()
    }

    /// Whether a table is what another becomes when a key is released.
    pub open spec fn released(&self, before: &ClaimTable, key: Seq<char>) -> bool {
        &&& self.may_hold() == before.may_hold().remove(key)
        &&& self.answers() == before.answers()
        &&& self.policy() == before.policy()
    }

    /// A table without claims, in which a claim lapses after some seconds, or earlier if there are
    /// more claims than the table has room for.
    pub fn new(ttl_seconds: u64, capacity: u64) -> (table: ClaimTable)
        requires
            ttl_seconds <= MAX_CLAIM_SECONDS,
        ensures
            table.may_hold() == Set::<Seq<char>>::empty(),
            table.answers() == Seq::<(Seq<char>, bool)>::empty(),
            table.policy() == (ttl_seconds, capacity),
    {
        ClaimTable { cache: cache_new(ttl_seconds, capacity) }
    }

    /// Claims a key; returns whether it was free. A key that was never claimed, or was released, is
    /// free. A key that was claimed is free again once the claim has lapsed.
    pub fn claim(&mut self, key: &str) -> (granted: bool)
        ensures
            final(self).asked(old(self), key@, granted),
            final(self).answers() == old(self).answers().push((key@, granted)),
            !old(self).may_hold().contains(key@) ==> granted,
    {
        cache_insert(&mut self.cache, key)
    }

    /// Releases a key.
    pub fn release(&mut self, key: &str)
        ensures
            final(self).released(old(self), key@),
            final(self).may_hold() == old(self).may_hold().remove(key@),
            final(self).answers() == old(self).answers(),
            final(self).policy() == old(self).policy(),
    {
        cache_remove(&mut self.cache, key)
    }
}

/// Whether some claims are made one after the other, on a table that nothing else happens to: the
/// tables before, between and after them, the keys, and whether each was granted.
pub open spec fn is_claim_run(tables: Seq<ClaimTable>, asks: Seq<(Seq<char>, bool)>) -> bool {
    &&& tables.len() == asks.len() + 1
    &&& forall|i: int|
        0 <= i < asks.len() ==> tables[i + 1].asked(
            &tables[i],
            (#[trigger] asks[i]).0,
            asks[i].1,
        )
}

/// Whether a claim is the first on its key.
pub open spec fn is_first(asks: Seq<(Seq<char>, bool)>, i: int) -> bool {
    forall|j: int| 0 <= j < i ==> (#[trigger] asks[j]).0 != asks[i].0
}

/// Whether no claim lapses: a key that was asked for before is denied.
pub open spec fn claims_last(asks: Seq<(Seq<char>, bool)>) -> bool {
    forall|i: int| 0 <= i < asks.len() && !is_first(asks, i) ==> !(#[trigger] asks[i]).1
}

/// A run of claims adds their keys to those that may be claimed.
proof fn lemma_claim_run(tables: Seq<ClaimTable>, asks: Seq<(Seq<char>, bool)>, n: int)
    requires
        is_claim_run(tables, asks),
        0 <= n <= asks.len(),
    ensures
        tables[n].may_hold() == held_after(tables[0].may_hold(), asks.take(n)),
    decreases n,
{
    if n > 0 {
        lemma_claim_run(tables, asks, n - 1);
        assert(tables[n - 1 + 1].asked(&tables[n - 1], asks[n - 1].0, asks[n - 1].1));
        assert(asks.take(n).drop_last() == asks.take(n - 1));
    }
}

/// The first claim on a key that is free is granted, whatever was claimed on other keys.
pub proof fn first_claim_is_granted(tables: Seq<ClaimTable>, asks: Seq<(Seq<char>, bool)>, i: int)
    requires
        is_claim_run(tables, asks),
        0 <= i < asks.len(),
        !tables[0].may_hold().contains(asks[i].0),
        is_first(asks, i),
    ensures
        asks[i].1,
{
    lemma_claim_run(tables, asks, i);
    assert(tables[i + 1].asked(&tables[i], asks[i].0, asks[i].1));
    let before = asks.take(i);
    if tables[i].may_hold().contains(asks[i].0) {
        lemma_held_after(tables[0].may_hold(), before, asks[i].0);
        let j = choose|j: int| 0 <= j < before.len() && (#[trigger] before[j]).0 == asks[i].0;
        assert(asks[j].0 == asks[i].0);
    }
}

/// While no claim lapses, exactly the first claim on each key is granted, if the key was free at
/// first.
pub proof fn exactly_the_first_claim_is_granted(
    tables: Seq<ClaimTable>,
    asks: Seq<(Seq<char>, bool)>,
    i: int,
)
    requires
        is_claim_run(tables, asks),
        claims_last(asks),
        0 <= i < asks.len(),
        !tables[0].may_hold().contains(asks[i].0),
    ensures
        asks[i].1 <==> is_first(asks, i),
{
    if is_first(asks, i) {
        first_claim_is_granted(tables, asks, i);
    }
}

/// A key that was released is granted to whoever asks next, and other keys may still be claimed.
pub proof fn released_key_is_granted(
    before: ClaimTable,
    free: ClaimTable,
    after: ClaimTable,
    key: Seq<char>,
    other: Seq<char>,
    granted: bool,
)
    requires
        free.released(&before, key),
        after.asked(&free, key, granted),
        other != key,
    ensures
        granted,
        after.may_hold().contains(key),
        after.may_hold().contains(other) <==> before.may_hold().contains(other),
{
}

/// A claim adds one answer, its own, and makes its key one that may be claimed; what a table was made
/// for stays.
pub proof fn claim_is_recorded(
    before: ClaimTable,
    after: ClaimTable,
    key: Seq<char>,
    other: Seq<char>,
    granted: bool,
)
    requires
        after.asked(&before, key, granted),
    ensures
        after.answers().len() == before.answers().len() + 1,
        after.answers().last() == (key, granted),
        before.answers().is_prefix_of(after.answers()),
        after.may_hold().contains(other) <==> other == key || before.may_hold().contains(other),
        !granted ==> before.may_hold().contains(key),
        after.policy() == before.policy(),
{
    assert(after.answers().take(before.answers().len() as int) =~= before.answers());
}

/// The keys that may be claimed after some claims are those from before and those asked for.
pub proof fn held_after_is_held_or_asked(
    held: Set<Seq<char>>,
    asked: Seq<(Seq<char>, bool)>,
    key: Seq<char>,
)
    ensures
        held_after(held, asked).contains(key) <==> held.contains(key) || exists|i: int|
            0 <= i < asked.len() && (#[trigger] asked[i]).0 == key,
    decreases asked.len(),
{
    if held_after(held, asked).contains(key) {
        lemma_held_after(held, asked, key);
    }
    if asked.len() > 0 {
        let before = asked.drop_last();
        held_after_is_held_or_asked(held, before, key);
        if exists|i: int| 0 <= i < asked.len() && (#[trigger] asked[i]).0 == key {
            let i = choose|i: int| 0 <= i < asked.len() && (#[trigger] asked[i]).0 == key;
            if i < before.len() {
                assert(before[i].0 == key);
            }
        }
    }
}

} // verus!
